//! The backend-independent interface to a language model: chat requests,
//! streamed response chunks, tool definitions, and embeddings.
//!
//! A backend (an in-process model, an HTTP server) implements [`Provider`]
//! outside this crate; the engine here is verified for every value such an
//! implementation can hand back. Embedding coordinates arrive already in
//! the store's fixed-point representation.

use vstd::prelude::*;
use vstd::string::StringExecFns;
use vstd::string::StringSliceAdditionalSpecFns;

verus! {

/// Why a provider call failed.
#[derive(Debug, Clone, PartialEq, Eq)]
pub enum ProviderError {
    /// The transport failed: connection, read, write.
    Transport(String),
    /// The backend answered with an error body.
    Api(String),
    /// The backend's answer could not be decoded.
    Decode(String),
    /// No progress within the watchdog interval.
    Timeout(String),
    Other(String),
}

/// A tool invocation the model asked for: the tool's name and its
/// arguments as serialized text.
#[derive(Debug, Clone, PartialEq, Eq)]
pub struct ToolCallFunction {
    pub name: String,
    pub arguments: String,
}

#[derive(Debug, Clone, PartialEq, Eq)]
pub struct ToolCall {
    pub function: ToolCallFunction,
}

/// A tool offered to the model: name, description, and parameter schema
/// as serialized text.
#[derive(Debug, Clone, PartialEq, Eq)]
pub struct ToolFunction {
    pub name: String,
    pub description: String,
    pub parameters: String,
}

#[derive(Debug, Clone, PartialEq, Eq)]
pub struct Tool {
    pub tool_type: String,
    pub function: ToolFunction,
}

/// One message of a conversation.
#[derive(Debug, Clone, PartialEq, Eq)]
pub struct Message {
    pub role: String,
    /// Context retrieved from the knowledge base, when any was attached.
    pub context: Option<String>,
    pub content: String,
    pub images: Option<Vec<String>>,
    pub tool_calls: Option<Vec<ToolCall>>,
}

impl Message {
    pub fn system(context: Option<String>, content: String) -> (r: Message)
        ensures
            r.role@ == "system"@,
            r.context == context,
            r.content@ == content@,
            r.images is None,
            r.tool_calls is None,
    {
        Message { role: String::from_str("system"), context, content, images: None, tool_calls: None }
    }

    pub fn user(context: Option<String>, content: String) -> (r: Message)
        ensures
            r.role@ == "user"@,
            r.context == context,
            r.content@ == content@,
            r.images is None,
            r.tool_calls is None,
    {
        Message { role: String::from_str("user"), context, content, images: None, tool_calls: None }
    }

    pub fn assistant(context: Option<String>, content: String) -> (r: Message)
        ensures
            r.role@ == "assistant"@,
            r.context == context,
            r.content@ == content@,
            r.images is None,
            r.tool_calls is None,
    {
        Message {
            role: String::from_str("assistant"),
            context,
            content,
            images: None,
            tool_calls: None,
        }
    }

    pub fn tool(context: Option<String>, content: String) -> (r: Message)
        ensures
            r.role@ == "tool"@,
            r.context == context,
            r.content@ == content@,
            r.images is None,
            r.tool_calls is None,
    {
        Message { role: String::from_str("tool"), context, content, images: None, tool_calls: None }
    }
}

/// A chat request: model, conversation so far, sampling temperature in
/// thousandths (700 stands for 0.7), and the tools on offer.
#[derive(Debug, Clone, PartialEq, Eq)]
pub struct ChatRequest {
    pub model: String,
    pub messages: Vec<Message>,
    pub temperature: u32,
    pub tools: Option<Vec<Tool>>,
}

impl ChatRequest {
    pub fn new(model: String, messages: Vec<Message>) -> (r: ChatRequest)
        ensures
            r.model@ == model@,
            r.messages == messages,
            r.temperature == 700,
            r.tools is None,
    {
        ChatRequest { model, messages, temperature: 700, tools: None }
    }

    pub fn with_temperature(self, temperature: u32) -> (r: ChatRequest)
        ensures
            r == (ChatRequest { temperature, ..self }),
    {
        ChatRequest { temperature, ..self }
    }

    pub fn with_tools(self, tools: Vec<Tool>) -> (r: ChatRequest)
        ensures
            r == (ChatRequest { tools: Some(tools), ..self }),
    {
        ChatRequest { tools: Some(tools), ..self }
    }
}

/// One streamed chunk of a chat response: the incremental text of this
/// chunk, the end-of-stream flag, and a message snapshot that may carry
/// tool calls.
#[derive(Debug, Clone, PartialEq, Eq)]
pub struct ChatResponse {
    pub model: String,
    pub content: String,
    pub done: bool,
    pub message: Message,
}

/// A request for one embedding.
#[derive(Debug, Clone, PartialEq, Eq)]
pub struct EmbedRequest {
    pub model: String,
    pub input: String,
}

/// How a model identifier resolves.
#[derive(Debug, Clone, Copy, PartialEq, Eq, Structural)]
pub enum ModelSource {
    /// An existing local model file, loaded directly.
    LocalFile,
    /// A `repo:filename` pre-quantized artifact fetched from a model hub.
    RepoFile,
    /// A bare repository id, fetched and quantized on load.
    RepoId,
}

/// Resolve a model identifier, in order: an existing local file (the
/// caller supplies that probe, which is file I/O), then a `repo:filename`
/// artifact, then a bare repository id.
pub fn resolve_model_source(model: &str, file_exists: bool) -> (r: ModelSource)
    ensures
        file_exists ==> r == ModelSource::LocalFile,
        !file_exists && crate::strutil::spec_contains(
            model.spec_bytes(),
            ":".spec_bytes(),
        ) ==> r == ModelSource::RepoFile,
        !file_exists && !crate::strutil::spec_contains(model.spec_bytes(), ":".spec_bytes())
            ==> r == ModelSource::RepoId,
{
    if file_exists {
        ModelSource::LocalFile
    } else if crate::strutil::str_contains(model, ":") {
        ModelSource::RepoFile
    } else {
        ModelSource::RepoId
    }
}

/// A language-model backend. `chat` returns the streamed chunks of one
/// response in generation order; `embed` and `embed_batch` return
/// fixed-point embedding vectors ordered as their inputs.
///
/// Implementations live outside this crate; the engine is verified for
/// every chunk list and every embedding an implementation can return.
pub trait Provider {
    fn chat(&mut self, request: &ChatRequest) -> Result<Vec<ChatResponse>, ProviderError>;

    fn embed(&mut self, text: &str, model: &str) -> Result<Vec<i64>, ProviderError>;

    fn embed_batch(&mut self, texts: &Vec<String>, model: &str) -> Result<
        Vec<Vec<i64>>,
        ProviderError,
    >;
}

/// A consumer of streamed response text; each call receives one
/// incremental piece, never an accumulation. The ghost history records
/// every delta the sink has received, in order.
pub trait ChunkSink {
    /// The deltas handed to the sink so far, in order. Implementations
    /// outside the verified crate may leave the default, which stands in
    /// for an unobserved history.
    open spec fn history(&self) -> Seq<Seq<char>> {
        Seq::empty()
    }

    fn on_chunk(&mut self, chunk: &str)
        ensures
            final(self).history() == old(self).history().push(chunk@),
    ;
}

} // verus!
