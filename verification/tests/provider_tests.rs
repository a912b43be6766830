use nucleus::indexer::is_local_gguf;
use nucleus::provider::resolve_model_source;
use nucleus::provider::ChatRequest;
use nucleus::provider::Message;
use nucleus::provider::ModelSource;

#[test]
fn test_resolve_model_source_order() {
    // An existing local file wins over everything.
    assert_eq!(
        resolve_model_source("./models/q.gguf", true),
        ModelSource::LocalFile
    );
    // Then a repo:filename artifact.
    assert_eq!(
        resolve_model_source("Repo/Model-GGUF:file.gguf", false),
        ModelSource::RepoFile
    );
    // Then a bare repository id.
    assert_eq!(
        resolve_model_source("Qwen/Qwen3-0.6B", false),
        ModelSource::RepoId
    );
}

#[test]
fn test_is_local_gguf() {
    assert!(is_local_gguf("./m.gguf", true));
    assert!(!is_local_gguf("./m.gguf", false));
    assert!(!is_local_gguf("./m.bin", true));
}

#[test]
fn test_chat_request_builder() {
    let request = ChatRequest::new(
        "model-id".to_string(),
        vec![Message::user(None, "hello".to_string())],
    );
    assert_eq!(request.model, "model-id");
    assert_eq!(request.temperature, 700);
    assert!(request.tools.is_none());

    let request = request.with_temperature(500);
    assert_eq!(request.temperature, 500);
}

#[test]
fn test_message_constructors() {
    let m = Message::system(None, "sys".to_string());
    assert_eq!(m.role, "system");
    let m = Message::user(None, "u".to_string());
    assert_eq!(m.role, "user");
    let m = Message::assistant(None, "a".to_string());
    assert_eq!(m.role, "assistant");
    let m = Message::tool(None, "t".to_string());
    assert_eq!(m.role, "tool");
    assert_eq!(m.content, "t");
    assert!(m.tool_calls.is_none());
}
