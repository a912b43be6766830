use nucleus::client::check_ollama_silent;
use nucleus::client::fold_stream_chunks;
use nucleus::client::AiClient;
use nucleus::client::ConversationHistory;
use nucleus::client::DetectionError;
use nucleus::server::RequestType;
use nucleus::server::StreamChunk;

#[test]
fn test_strip_think_tags() {
    assert_eq!(
        AiClient::strip_think_tags("<think>reasoning here</think>The answer"),
        "The answer"
    );
    assert_eq!(AiClient::strip_think_tags("A<think>x</think>B"), "AB");
    assert_eq!(AiClient::strip_think_tags("no tags at all"), "no tags at all");
    assert_eq!(AiClient::strip_think_tags("  padded  "), "padded");
    // An unclosed passage swallows the rest.
    assert_eq!(AiClient::strip_think_tags("before <think>gone"), "before");
    // A lone `<` is plain text.
    assert_eq!(AiClient::strip_think_tags("a < b"), "a < b");
}

#[test]
fn test_fold_stream_chunks_accumulates() {
    let chunks = vec![
        StreamChunk::chunk("He".to_string()),
        StreamChunk::chunk("llo".to_string()),
        StreamChunk::done(String::new()),
    ];
    assert_eq!(fold_stream_chunks(chunks).unwrap(), "Hello");
}

#[test]
fn test_fold_stream_chunks_done_replaces() {
    let chunks = vec![
        StreamChunk::chunk("partial".to_string()),
        StreamChunk::done("Complete".to_string()),
    ];
    assert_eq!(fold_stream_chunks(chunks).unwrap(), "Complete");
}

#[test]
fn test_fold_stream_chunks_error() {
    let chunks = vec![
        StreamChunk::chunk("x".to_string()),
        StreamChunk::error("boom".to_string()),
    ];
    assert_eq!(fold_stream_chunks(chunks).unwrap_err(), "boom");
}

#[test]
fn test_request_builders() {
    let r = AiClient::add_knowledge("some text");
    assert_eq!(r.request_type, RequestType::Add);
    assert_eq!(r.content, "some text");

    let r = AiClient::index_directory("./src");
    assert_eq!(r.request_type, RequestType::Index);
    assert_eq!(r.content, "./src");

    let r = AiClient::stats();
    assert_eq!(r.request_type, RequestType::Stats);
    assert_eq!(r.content, "");

    let r = AiClient::chat("hi", Some("/home".to_string()), None);
    assert_eq!(r.request_type, RequestType::Chat);
    assert_eq!(r.pwd, Some("/home".to_string()));
}

#[test]
fn test_conversation_history() {
    let mut h = ConversationHistory::new();
    h.add_user_message("question".to_string());
    h.add_assistant_message("answer".to_string());
    assert_eq!(h.get_messages().len(), 2);
    assert_eq!(h.get_messages()[0].role, "user");
    assert_eq!(h.get_messages()[1].role, "assistant");
    h.clear();
    assert_eq!(h.get_messages().len(), 0);
}

#[test]
fn test_check_ollama_silent() {
    assert!(check_ollama_silent(true, Ok(true)).is_ok());
    assert_eq!(
        check_ollama_silent(false, Ok(true)).unwrap_err(),
        DetectionError::NotInstalled
    );
    assert_eq!(
        check_ollama_silent(true, Ok(false)).unwrap_err(),
        DetectionError::NotRunning
    );
    assert_eq!(
        check_ollama_silent(true, Err("probe failed".to_string())).unwrap_err(),
        DetectionError::CheckFailed("probe failed".to_string())
    );
}
