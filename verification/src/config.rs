//! Typed configuration with defaults.
//!
//! Every field has a default; loading a configuration file and merging it
//! over these defaults is the caller's concern (it is plain file I/O), so
//! this module only defines the configuration data and its default values.

use vstd::prelude::*;
use vstd::string::StringExecFns;

verus! {

/// Permissions granted to the assistant as a whole.
///
/// A granted capability does not by itself perform anything; a capability
/// that is not granted is never registered at all.
#[derive(Debug, Clone, Copy, PartialEq, Eq, Structural)]
pub struct Permission {
    /// Read directories and files.
    pub read: bool,
    /// Write to files.
    pub write: bool,
    /// Run system commands.
    pub command: bool,
}

impl Default for Permission {
    fn default() -> (r: Self)
        ensures
            r.read && r.write && r.command,
    {
        Permission { read: true, write: true, command: true }
    }
}

/// Which backend holds the vector database.
#[derive(Debug, Clone, PartialEq, Eq)]
pub enum StorageMode {
    /// In-process storage under a directory; no external setup.
    Embedded { path: String },
    /// A remote vector-database server reached over a local RPC URL.
    Grpc { url: String },
}

impl Default for StorageMode {
    fn default() -> (r: Self)
        ensures
            r matches StorageMode::Embedded { path } && path@ == "./data/nucleus_vectordb"@,
    {
        StorageMode::Embedded { path: String::from_str("./data/nucleus_vectordb") }
    }
}

/// Configuration of the file indexer.
#[derive(Debug, Clone, PartialEq, Eq)]
pub struct IndexerConfig {
    /// File extensions to index; empty means every readable text file.
    pub extensions: Vec<String>,
    /// Path substrings whose presence excludes a file or directory.
    pub exclude_patterns: Vec<String>,
    /// Chunk size in bytes.
    pub chunk_size: usize,
    /// Overlap between consecutive chunks in bytes; less than `chunk_size`.
    pub chunk_overlap: usize,
}

impl Default for IndexerConfig {
    fn default() -> (r: Self)
        ensures
            r.extensions@.len() == 0,
            r.exclude_patterns.deep_view() == crate::patterns::spec_default_exclude_patterns(),
            r.chunk_size == 512,
            r.chunk_overlap == 50,
    {
        IndexerConfig {
            extensions: Vec::new(),
            exclude_patterns: crate::patterns::default_exclude_patterns(),
            chunk_size: 512,
            chunk_overlap: 50,
        }
    }
}

/// An embedding model description.
#[derive(Debug, Clone, PartialEq, Eq)]
pub struct EmbeddingModel {
    pub id: String,
    pub name: String,
    /// Local path of the model file, when one is configured.
    pub path: Option<String>,
    /// Model-hub repository the model can be fetched from.
    pub hf_repo: Option<String>,
    pub context_length: usize,
    pub embedding_dim: usize,
    pub description: String,
}

impl Default for EmbeddingModel {
    fn default() -> (r: Self)
        ensures
            r.id@ == "qwen3-embedding-0.6b"@,
            r.path is None,
            r.hf_repo matches Some(repo) && repo@ == "Qwen/Qwen3-Embedding-0.6B"@,
            r.context_length == 32768,
            r.embedding_dim == 1024,
    {
        EmbeddingModel {
            id: String::from_str("qwen3-embedding-0.6b"),
            name: String::from_str("Qwen3 Embedding 0.6B"),
            path: None,
            hf_repo: Some(String::from_str("Qwen/Qwen3-Embedding-0.6B")),
            context_length: 32768,
            embedding_dim: 1024,
            description: String::from_str("Multilingual text embedding model"),
        }
    }
}

/// Configuration of the retrieval pipeline: embedding model and chunking.
#[derive(Debug, Clone, PartialEq, Eq)]
pub struct RagConfig {
    pub embedding_model: String,
    /// Chunk size in bytes.
    pub chunk_size: usize,
    /// Overlap between consecutive chunks in bytes; less than `chunk_size`.
    pub chunk_overlap: usize,
    pub indexer: IndexerConfig,
}

impl Default for RagConfig {
    fn default() -> (r: Self)
        ensures
            r.embedding_model@ == "models/Qwen3-Embedding-0.6B"@,
            r.chunk_size == 512,
            r.chunk_overlap == 50,
    {
        RagConfig {
            embedding_model: String::from_str("models/Qwen3-Embedding-0.6B"),
            chunk_size: 512,
            chunk_overlap: 50,
            indexer: IndexerConfig::default(),
        }
    }
}

/// Name of the collection (index) inside the vector database.
#[derive(Debug, Clone, PartialEq, Eq)]
pub struct VectorDbConfig {
    pub collection_name: String,
}

impl Default for VectorDbConfig {
    fn default() -> (r: Self)
        ensures
            r.collection_name@ == "nucleus_kb"@,
    {
        VectorDbConfig { collection_name: String::from_str("nucleus_kb") }
    }
}

/// Where persistent state lives, and how many results searches return.
#[derive(Debug, Clone, PartialEq, Eq)]
pub struct StorageConfig {
    pub chat_history_path: String,
    pub tool_state_path: String,
    pub storage_mode: StorageMode,
    pub vector_db: VectorDbConfig,
    /// Number of results a vector search returns; at least 1.
    pub top_k: usize,
}

impl Default for StorageConfig {
    fn default() -> (r: Self)
        ensures
            r.chat_history_path@ == "./data/history"@,
            r.tool_state_path@ == "./data/tool_state"@,
            r.storage_mode matches StorageMode::Embedded { path } && path@ == "./data/nucleus_vectordb"@,
            r.vector_db.collection_name@ == "nucleus_kb"@,
            r.top_k == 5,
    {
        StorageConfig {
            chat_history_path: String::from_str("./data/history"),
            tool_state_path: String::from_str("./data/tool_state"),
            storage_mode: StorageMode::default(),
            vector_db: VectorDbConfig::default(),
            top_k: 5,
        }
    }
}

/// Personalization switches.
#[derive(Debug, Clone, PartialEq, Eq)]
pub struct PersonalizationConfig {
    pub learn_from_interactions: bool,
    pub save_conversations: bool,
    pub user_preferences_path: String,
}

impl Default for PersonalizationConfig {
    fn default() -> (r: Self)
        ensures
            r.learn_from_interactions,
            r.save_conversations,
            r.user_preferences_path@ == "./data/preferences.json"@,
    {
        PersonalizationConfig {
            learn_from_interactions: true,
            save_conversations: true,
            user_preferences_path: String::from_str("./data/preferences.json"),
        }
    }
}

} // verus!
