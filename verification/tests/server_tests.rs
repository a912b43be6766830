use nucleus::chat::ChatManager;
use nucleus::chat::ToolRunner;
use nucleus::config::RagConfig;
use nucleus::config::StorageConfig;
use nucleus::indexer::IndexedFile;
use nucleus::plugin::Permission;
use nucleus::plugin::PluginError;
use nucleus::plugin::PluginOutput;
use nucleus::plugin::PluginRegistry;
use nucleus::provider::ChatRequest;
use nucleus::provider::ChatResponse;
use nucleus::provider::Message;
use nucleus::provider::Provider;
use nucleus::provider::ProviderError;
use nucleus::rag::RagEngine;
use nucleus::server::ChunkType;
use nucleus::server::HistoryMessage;
use nucleus::server::Request;
use nucleus::server::RequestHandler;
use nucleus::server::RequestType;
use nucleus::server::StreamChunk;

struct NoTools;

impl ToolRunner for NoTools {
    fn run(&mut self, _name: &str, _arguments: &str) -> Result<PluginOutput, PluginError> {
        Err(PluginError::Other("no tool should run".to_string()))
    }
}

struct EchoProvider;

impl Provider for EchoProvider {
    fn chat(&mut self, request: &ChatRequest) -> Result<Vec<ChatResponse>, ProviderError> {
        let text = request.messages.last().unwrap().content.clone();
        Ok(vec![ChatResponse {
            model: request.model.clone(),
            content: text.clone(),
            done: false,
            message: Message {
                role: "assistant".to_string(),
                context: None,
                content: text,
                images: None,
                tool_calls: None,
            },
        }])
    }

    fn embed(&mut self, _text: &str, _model: &str) -> Result<Vec<i64>, ProviderError> {
        Ok(vec![0, 0, 0, 0])
    }

    fn embed_batch(
        &mut self,
        texts: &Vec<String>,
        _model: &str,
    ) -> Result<Vec<Vec<i64>>, ProviderError> {
        Ok(texts.iter().map(|_| vec![0i64, 0, 0, 0]).collect())
    }
}

fn handler() -> RequestHandler<EchoProvider, NoTools> {
    let rag = RagEngine::new(&RagConfig::default(), &StorageConfig::default(), 4).unwrap();
    let manager = ChatManager::new(
        "m".to_string(),
        600,
        EchoProvider,
        NoTools,
        PluginRegistry::new(Permission::none()),
        rag,
    );
    RequestHandler::new("be helpful".to_string(), manager)
}

fn request(kind: RequestType, content: &str) -> Request {
    Request {
        request_type: kind,
        content: content.to_string(),
        pwd: None,
        history: None,
    }
}

#[test]
fn test_stream_chunk_constructors() {
    let c = StreamChunk::chunk("part".to_string());
    assert_eq!(c.chunk_type, ChunkType::Chunk);
    assert_eq!(c.content, "part");
    assert!(c.error.is_none());

    let d = StreamChunk::done("full".to_string());
    assert_eq!(d.chunk_type, ChunkType::Done);
    assert_eq!(d.content, "full");
    assert!(d.error.is_none());

    let e = StreamChunk::error("oops".to_string());
    assert_eq!(e.chunk_type, ChunkType::Error);
    assert_eq!(e.content, "");
    assert_eq!(e.error, Some("oops".to_string()));
}

#[test]
fn test_build_messages_order() {
    let h = handler();
    let mut req = request(RequestType::Chat, "current question");
    req.history = Some(vec![
        HistoryMessage {
            role: "user".to_string(),
            content: "earlier".to_string(),
        },
    ]);
    let messages = h.build_messages(&req);
    assert_eq!(messages.len(), 3);
    assert_eq!(messages[0].role, "system");
    assert_eq!(messages[0].content, "be helpful");
    assert_eq!(messages[1].content, "earlier");
    assert_eq!(messages[2].role, "user");
    assert_eq!(messages[2].content, "current question");
}

#[test]
fn test_handle_chat_frames_reply() {
    let mut h = handler();
    let none: Vec<IndexedFile> = Vec::new();
    let out = h.handle(&request(RequestType::Chat, "echo me"), &none);
    assert!(out.len() >= 2);
    assert_eq!(out[0].chunk_type, ChunkType::Chunk);
    assert_eq!(out[0].content, "echo me");
    assert_eq!(out.last().unwrap().chunk_type, ChunkType::Done);
    assert_eq!(out.last().unwrap().content, "echo me");
}

#[test]
fn test_handle_stats_counts() {
    let mut h = handler();
    let none: Vec<IndexedFile> = Vec::new();
    let out = h.handle(&request(RequestType::Stats, ""), &none);
    assert_eq!(out.len(), 1);
    assert_eq!(out[0].content, "Knowledge base contains 0 documents");
}

#[test]
fn test_handle_add_and_index() {
    let mut h = handler();
    let none: Vec<IndexedFile> = Vec::new();
    let out = h.handle(&request(RequestType::Add, "a fact"), &none);
    assert_eq!(out[0].chunk_type, ChunkType::Done);
    assert_eq!(out[0].content, "Added to knowledge base");

    let files = vec![IndexedFile {
        path: "a.txt".to_string(),
        content: "hello".to_string(),
    }];
    let out = h.handle(&request(RequestType::Index, "./x"), &files);
    assert_eq!(out[0].chunk_type, ChunkType::Done);
    assert_eq!(out[0].content, "Indexed 1 files from: ./x");

    let out = h.handle(&request(RequestType::Stats, ""), &none);
    assert_eq!(out[0].content, "Knowledge base contains 2 documents");
}
