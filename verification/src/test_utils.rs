//! A provider and a tool that answer as they were told to, and keep what they
//! were asked.

use vstd::prelude::*;

use crate::error::{ErrorView, PiError, ProviderErrorView};
use crate::json::{Json, JsonView};
use crate::traits::StreamChunk;
use crate::types::{
    clone_messages, text_message, AgentConfig, AgentConfigView, ChatResponse, FinishReason, Message,
    MessageView, Role, ToolDefinition, ToolDefinitionView, Usage,
};

verus! {

/// Captured provider request data.
#[derive(Debug, PartialEq)]
pub struct MockProviderRequest {
    /// Requested model id.
    pub model: String,
    /// Messages passed to the provider.
    pub messages: Vec<Message>,
    /// Tool definitions passed to the provider.
    pub tools: Vec<ToolDefinition>,
    /// Agent config passed to the provider.
    pub config: AgentConfig,
}

/// What a captured request holds.
pub struct RequestView {
    pub model: Seq<char>,
    pub messages: Seq<MessageView>,
    pub tools: Seq<ToolDefinitionView>,
    pub config: AgentConfigView,
}

impl DeepView for MockProviderRequest {
    type V = RequestView;

    open spec fn deep_view(&self) -> RequestView {
        RequestView {
            model: self.model@,
            messages: self.messages.deep_view(),
            tools: self.tools.deep_view(),
            config: self.config.deep_view(),
        }
    }
}

/// A copy of a list of tool definitions.
fn clone_tools(tools: &Vec<ToolDefinition>) -> (r: Vec<ToolDefinition>)
    ensures
        r.deep_view() == tools.deep_view(),
{
    let r: Vec<ToolDefinition> = tools.clone();
    assert(r.deep_view() =~= tools.deep_view());
    r
}

impl Clone for MockProviderRequest {
    fn clone(&self) -> (r: Self)
        ensures
            r.deep_view() == self.deep_view(),
    {
        MockProviderRequest {
            model: self.model.clone(),
            messages: clone_messages(&self.messages),
            tools: clone_tools(&self.tools),
            config: self.config.clone(),
        }
    }
}

/// What a mock provider holds: the answers still queued, oldest first, and the
/// requests seen so far.
pub struct MockProviderView {
    pub id: Seq<char>,
    pub chat_responses: Seq<ChatResponse>,
    pub stream_responses: Seq<Vec<StreamChunk>>,
    pub requests: Seq<RequestView>,
    pub token_count: Option<u32>,
}

/// Builder-style mock provider for tests.
#[derive(Debug)]
pub struct MockProvider {
    id: String,
    chat_responses: Vec<ChatResponse>,
    stream_responses: Vec<Vec<StreamChunk>>,
    requests: Vec<MockProviderRequest>,
    token_count: Option<u32>,
}

impl View for MockProvider {
    type V = MockProviderView;

    closed spec fn view(&self) -> MockProviderView {
        MockProviderView {
            id: self.id@,
            chat_responses: self.chat_responses@,
            stream_responses: self.stream_responses@,
            requests: self.requests.deep_view(),
            token_count: self.token_count,
        }
    }
}

impl MockProvider {
    /// Create a mock provider with the given provider id.
    pub fn new(id: &str) -> (r: Self)
        ensures
            r@ == (MockProviderView {
                id: id@,
                chat_responses: Seq::empty(),
                stream_responses: Seq::empty(),
                requests: Seq::empty(),
                token_count: None,
            }),
    {
        let r = MockProvider {
            id: id.to_owned(),
            chat_responses: Vec::new(),
            stream_responses: Vec::new(),
            requests: Vec::new(),
            token_count: None,
        };
        assert(r.requests.deep_view() =~= Seq::<RequestView>::empty());
        r
    }

    /// Queue a non-streaming chat response.
    pub fn with_chat_response(self, response: ChatResponse) -> (r: Self)
        ensures
            r@ == (MockProviderView {
                chat_responses: self@.chat_responses.push(response),
                ..self@
            }),
    {
        let mut r = self;
        r.chat_responses.push(response);
        r
    }

    /// Queue a streaming response represented by chunks.
    pub fn with_stream_chunks(self, chunks: Vec<StreamChunk>) -> (r: Self)
        ensures
            r@ == (MockProviderView {
                stream_responses: self@.stream_responses.push(chunks),
                ..self@
            }),
    {
        let mut r = self;
        r.stream_responses.push(chunks);
        r
    }

    /// Set the provider token count result.
    pub fn with_token_count(self, token_count: u32) -> (r: Self)
        ensures
            r@ == (MockProviderView { token_count: Some(token_count), ..self@ }),
    {
        let mut r = self;
        r.token_count = Some(token_count);
        r
    }

    /// Return captured provider requests, oldest first.
    pub fn requests(&self) -> (r: Vec<MockProviderRequest>)
        ensures
            r.deep_view() == self@.requests,
    {
        let r: Vec<MockProviderRequest> = self.requests.clone();
        assert(r.deep_view() =~= self.requests.deep_view());
        r
    }

    fn record_request(
        &mut self,
        model: &str,
        messages: &Vec<Message>,
        tools: &Vec<ToolDefinition>,
        config: &AgentConfig,
    )
        ensures
            final(self)@ == (MockProviderView {
                requests: old(self)@.requests.push(
                    RequestView {
                        model: model@,
                        messages: messages.deep_view(),
                        tools: tools.deep_view(),
                        config: config.deep_view(),
                    },
                ),
                ..old(self)@
            }),
    {
        let request = MockProviderRequest {
            model: model.to_owned(),
            messages: clone_messages(messages),
            tools: clone_tools(tools),
            config: config.clone(),
        };
        let ghost before = self.requests.deep_view();
        let ghost added = request.deep_view();
        self.requests.push(request);
        assert(self.requests.deep_view() =~= before.push(added));
    }

    /// The provider id.
    pub fn id(&self) -> (r: &str)
        ensures
            r@ == self@.id,
    {
        self.id.as_str()
    }

    /// The oldest chat response still queued. The request is kept either way.
    pub fn chat(
        &mut self,
        model: &str,
        messages: &Vec<Message>,
        tools: &Vec<ToolDefinition>,
        config: &AgentConfig,
    ) -> (r: Result<ChatResponse, PiError>)
        ensures
            final(self)@.requests == old(self)@.requests.push(
                RequestView {
                    model: model@,
                    messages: messages.deep_view(),
                    tools: tools.deep_view(),
                    config: config.deep_view(),
                },
            ),
            final(self)@ == (MockProviderView {
                requests: final(self)@.requests,
                chat_responses: final(self)@.chat_responses,
                ..old(self)@
            }),
            old(self)@.chat_responses.len() > 0 ==> {
                &&& r == Ok::<ChatResponse, PiError>(old(self)@.chat_responses[0])
                &&& final(self)@.chat_responses == old(self)@.chat_responses.skip(1)
            },
            old(self)@.chat_responses.len() == 0 ==> {
                &&& r is Err
                &&& r->Err_0.deep_view() == ErrorView::Provider(
                    ProviderErrorView::Other {
                        message: "mock provider has no queued chat response"@,
                    },
                )
                &&& final(self)@.chat_responses == old(self)@.chat_responses
            },
    {
        self.record_request(model, messages, tools, config);
        if self.chat_responses.len() == 0 {
            return Err(PiError::provider("mock provider has no queued chat response"));
        }
        let ghost queued = self.chat_responses@;
        let response = self.chat_responses.remove(0);
        assert(self.chat_responses@ =~= queued.skip(1));
        Ok(response)
    }

    /// The chunks of the oldest streaming response still queued. The request is
    /// kept either way.
    pub fn chat_stream(
        &mut self,
        model: &str,
        messages: &Vec<Message>,
        tools: &Vec<ToolDefinition>,
        config: &AgentConfig,
    ) -> (r: Result<Vec<StreamChunk>, PiError>)
        ensures
            final(self)@.requests == old(self)@.requests.push(
                RequestView {
                    model: model@,
                    messages: messages.deep_view(),
                    tools: tools.deep_view(),
                    config: config.deep_view(),
                },
            ),
            final(self)@ == (MockProviderView {
                requests: final(self)@.requests,
                stream_responses: final(self)@.stream_responses,
                ..old(self)@
            }),
            old(self)@.stream_responses.len() > 0 ==> {
                &&& r == Ok::<Vec<StreamChunk>, PiError>(old(self)@.stream_responses[0])
                &&& final(self)@.stream_responses == old(self)@.stream_responses.skip(1)
            },
            old(self)@.stream_responses.len() == 0 ==> {
                &&& r is Err
                &&& r->Err_0.deep_view() == ErrorView::Provider(
                    ProviderErrorView::Other {
                        message: "mock provider has no queued stream response"@,
                    },
                )
                &&& final(self)@.stream_responses == old(self)@.stream_responses
            },
    {
        self.record_request(model, messages, tools, config);
        if self.stream_responses.len() == 0 {
            return Err(PiError::provider("mock provider has no queued stream response"));
        }
        let ghost queued = self.stream_responses@;
        let chunks = self.stream_responses.remove(0);
        assert(self.stream_responses@ =~= queued.skip(1));
        Ok(chunks)
    }

    /// The token count that was set, whatever the messages are.
    pub fn count_tokens(&self, _messages: &Vec<Message>) -> (r: Option<u32>)
        ensures
            r == self@.token_count,
    {
        self.token_count
    }
}

/// What a mock tool holds: what it is, what it answers, and the arguments of
/// the calls seen so far.
pub struct MockToolView {
    pub definition: ToolDefinitionView,
    pub result: Seq<char>,
    pub calls: Seq<JsonView>,
}

/// Mock tool for tests that need deterministic tool execution.
#[derive(Debug)]
pub struct MockTool {
    definition: ToolDefinition,
    result: String,
    calls: Vec<Json>,
}

impl View for MockTool {
    type V = MockToolView;

    closed spec fn view(&self) -> MockToolView {
        MockToolView {
            definition: self.definition.deep_view(),
            result: self.result@,
            calls: self.calls.deep_view(),
        }
    }
}

impl MockTool {
    /// Create a mock tool with a definition and fixed result.
    pub fn new(definition: ToolDefinition, result: &str) -> (r: Self)
        ensures
            r@ == (MockToolView {
                definition: definition.deep_view(),
                result: result@,
                calls: Seq::empty(),
            }),
    {
        let r = MockTool { definition, result: result.to_owned(), calls: Vec::new() };
        assert(r.calls.deep_view() =~= Seq::<JsonView>::empty());
        r
    }

    /// Return captured tool call arguments, oldest first.
    pub fn calls(&self) -> (r: Vec<Json>)
        ensures
            r.deep_view() == self@.calls,
    {
        let r: Vec<Json> = self.calls.clone();
        assert(r.deep_view() =~= self.calls.deep_view());
        r
    }

    /// The tool's name.
    pub fn name(&self) -> (r: &str)
        ensures
            r@ == self@.definition.name,
    {
        self.definition.name.as_str()
    }

    /// The tool's definition.
    pub fn definition(&self) -> (r: ToolDefinition)
        ensures
            r.deep_view() == self@.definition,
    {
        self.definition.clone()
    }

    /// Keep the arguments and give the fixed result.
    pub fn execute(&mut self, arguments: &Json) -> (r: Result<String, PiError>)
        ensures
            r is Ok,
            r->Ok_0@ == old(self)@.result,
            final(self)@ == (MockToolView {
                calls: old(self)@.calls.push(arguments.deep_view()),
                ..old(self)@
            }),
    {
        let ghost before = self.calls.deep_view();
        self.calls.push(arguments.clone());
        assert(self.calls.deep_view() =~= before.push(arguments.deep_view()));
        Ok(self.result.clone())
    }
}

/// Create a plain assistant response with text content and zero usage.
pub fn assistant_text_response(text: &str) -> (r: ChatResponse)
    ensures
        r.message.deep_view() == text_message(Role::Assistant, text@),
        r.finish_reason == FinishReason::Stop,
        r.usage == (Usage { prompt_tokens: 0, completion_tokens: 0, total_tokens: 0 }),
{
    ChatResponse {
        message: Message::text(Role::Assistant, text.to_owned()),
        finish_reason: FinishReason::Stop,
        usage: Usage { prompt_tokens: 0, completion_tokens: 0, total_tokens: 0 },
    }
}

} // verus!
