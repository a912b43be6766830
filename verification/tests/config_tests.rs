use nucleus::config::Permission;
use nucleus::config::RagConfig;
use nucleus::config::StorageConfig;
use nucleus::config::VectorDbConfig;

#[test]
fn test_permission_default() {
    let perm = Permission::default();
    assert!(perm.read);
    assert!(perm.write);
    assert!(perm.command);
}

#[test]
fn config_test_permission_default() {
    let perm = Permission::default();
    assert!(perm.read);
    assert!(perm.write);
    assert!(perm.command);
}

#[test]
fn test_vector_db_config_default() {
    let config = VectorDbConfig::default();
    assert_eq!(config.collection_name, "nucleus_kb");
}

#[test]
fn test_storage_config_defaults() {
    let config = StorageConfig::default();
    assert_eq!(config.chat_history_path, "./data/history");
    assert_eq!(config.tool_state_path, "./data/tool_state");
    assert_eq!(config.vector_db.collection_name, "nucleus_kb");
    assert_eq!(config.top_k, 5);
}

#[test]
fn test_rag_config_defaults() {
    let config = RagConfig::default();
    assert_eq!(config.embedding_model, "models/Qwen3-Embedding-0.6B");
    assert_eq!(config.chunk_size, 512);
    assert_eq!(config.chunk_overlap, 50);
}
