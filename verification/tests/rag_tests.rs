use nucleus::config::RagConfig;
use nucleus::config::StorageConfig;
use nucleus::indexer::IndexedFile;
use nucleus::provider::ChatRequest;
use nucleus::provider::ChatResponse;
use nucleus::provider::Provider;
use nucleus::provider::ProviderError;
use nucleus::rag::make_chunk_id;
use nucleus::rag::format_context;
use nucleus::rag::Embedder;
use nucleus::rag::RagEngine;
use nucleus::store::Document;
use nucleus::store::SearchResult;
use nucleus::store::VectorStore;
use nucleus::store::SCALE;

/// A deterministic provider: every embedding is a fixed unit vector of
/// the requested dimension; chat is never used here.
struct FixedEmbedProvider {
    dim: usize,
}

impl Provider for FixedEmbedProvider {
    fn chat(&mut self, _request: &ChatRequest) -> Result<Vec<ChatResponse>, ProviderError> {
        Err(ProviderError::Other("no chat in this test".to_string()))
    }

    fn embed(&mut self, _text: &str, _model: &str) -> Result<Vec<i64>, ProviderError> {
        let mut v = vec![0i64; self.dim];
        v[0] = SCALE;
        Ok(v)
    }

    fn embed_batch(
        &mut self,
        texts: &Vec<String>,
        model: &str,
    ) -> Result<Vec<Vec<i64>>, ProviderError> {
        let mut out = Vec::new();
        for t in texts {
            out.push(self.embed(t.as_str(), model)?);
        }
        Ok(out)
    }
}

fn small_engine() -> RagEngine {
    let mut config = RagConfig::default();
    config.chunk_size = 10;
    config.chunk_overlap = 2;
    RagEngine::new(&config, &StorageConfig::default(), 4).unwrap()
}

#[test]
fn test_chunk_id_format() {
    assert_eq!(make_chunk_id("src/main.rs", 0), "src/main.rs_chunk_0");
    assert_eq!(make_chunk_id("a b", 12), "a b_chunk_12");
}

#[test]
fn test_add_knowledge_and_count() {
    let mut engine = small_engine();
    let mut provider = FixedEmbedProvider { dim: 4 };
    assert_eq!(engine.count(), 0);
    engine
        .add_knowledge(&mut provider, "remember this", "user_input")
        .unwrap();
    assert_eq!(engine.count(), 1);
    assert_eq!(engine.store.docs[0].id, "user_input_0");
    assert_eq!(engine.store.docs[0].content, "remember this");
}

#[test]
fn test_index_files_chunk_ids_stable() {
    // Indexing the same file with identical content and parameters gives
    // identical chunk ids and identical content per id.
    let mut engine = small_engine();
    let mut provider = FixedEmbedProvider { dim: 4 };
    let files = vec![IndexedFile {
        path: "notes.txt".to_string(),
        content: "0123456789ABCDEF".to_string(),
    }];
    engine.index_files(&mut provider, &files).unwrap();
    let first: Vec<(String, String)> = engine
        .store
        .docs
        .iter()
        .map(|d| (d.id.clone(), d.content.clone()))
        .collect();

    engine.index_files(&mut provider, &files).unwrap();
    let second: Vec<(String, String)> = engine
        .store
        .docs
        .iter()
        .map(|d| (d.id.clone(), d.content.clone()))
        .collect();

    assert_eq!(first, second);
    assert_eq!(first[0].0, "notes.txt_chunk_0");
    assert_eq!(first[1].0, "notes.txt_chunk_1");
}

#[test]
fn test_index_twice_count_unchanged() {
    // Re-indexing an unchanged file replaces its chunks: the count after
    // the second run equals the count after the first.
    let mut engine = small_engine();
    let mut provider = FixedEmbedProvider { dim: 4 };
    let files = vec![IndexedFile {
        path: "notes.txt".to_string(),
        content: "0123456789ABCDEF".to_string(),
    }];
    engine.index_files(&mut provider, &files).unwrap();
    let after_first = engine.count();
    assert_eq!(after_first, 2);
    engine.index_files(&mut provider, &files).unwrap();
    assert_eq!(engine.count(), after_first);
}

#[test]
fn test_index_file_chunk_count() {
    let mut engine = small_engine();
    let mut provider = FixedEmbedProvider { dim: 4 };
    let n = engine
        .index_file(&mut provider, "x.txt", "0123456789ABCDEF")
        .unwrap();
    assert_eq!(n, 2);
    assert_eq!(engine.count(), 2);
}

#[test]
fn test_remove_from_knowledge_base() {
    let mut engine = small_engine();
    let mut provider = FixedEmbedProvider { dim: 4 };
    engine
        .index_file(&mut provider, "./src/a.rs", "hello")
        .unwrap();
    engine
        .index_file(&mut provider, "./docs/b.md", "world")
        .unwrap();
    let removed = engine.remove_from_knowledge_base("./src");
    assert_eq!(removed, 1);
    assert_eq!(engine.count(), 1);
}

#[test]
fn test_format_context_exact() {
    let mk = |content: &str, score: i128| SearchResult {
        document: Document::new("id".to_string(), content.to_string(), vec![SCALE]),
        score,
    };
    let results = vec![mk("alpha", SCALE as i128), mk("beta", 0)];
    let formatted = format_context(&results);
    assert_eq!(
        formatted,
        "\n\nRelevant context from your knowledge base:\n\n[1] alpha\n\n[2] beta\n"
    );
}

#[test]
fn test_format_context_empty() {
    let results: Vec<SearchResult> = Vec::new();
    assert_eq!(format_context(&results), "");
}

#[test]
fn test_retrieve_context_ranks_and_formats() {
    // Two stored documents; the search ranks "alpha" above "beta"; the
    // returned context is the exact formatted string.
    let mut store = VectorStore::new(2, 5);
    store
        .add(vec![
            Document::new("1".to_string(), "beta".to_string(), vec![0, SCALE])
                .with_metadata("source".to_string(), "b".to_string()),
            Document::new("2".to_string(), "alpha".to_string(), vec![SCALE, 0])
                .with_metadata("source".to_string(), "a".to_string()),
        ])
        .unwrap();
    let engine = RagEngine {
        embedder: Embedder::new("m".to_string()),
        store,
        chunk_size: 10,
        chunk_overlap: 2,
    };
    let context = engine.retrieve_context_with(&vec![SCALE, 0]);
    assert_eq!(
        context,
        "\n\nRelevant context from your knowledge base:\n\n[1] alpha\n\n[2] beta\n"
    );
}

/// A provider whose embedding endpoint always fails.
struct FailingProvider;

impl Provider for FailingProvider {
    fn chat(&mut self, _request: &ChatRequest) -> Result<Vec<ChatResponse>, ProviderError> {
        Err(ProviderError::Transport("down".to_string()))
    }

    fn embed(&mut self, _text: &str, _model: &str) -> Result<Vec<i64>, ProviderError> {
        Err(ProviderError::Transport("down".to_string()))
    }

    fn embed_batch(
        &mut self,
        _texts: &Vec<String>,
        _model: &str,
    ) -> Result<Vec<Vec<i64>>, ProviderError> {
        Err(ProviderError::Transport("down".to_string()))
    }
}

#[test]
fn test_add_knowledge_embed_failure_leaves_store_unchanged() {
    let mut engine = small_engine();
    let mut provider = FailingProvider;
    let err = engine
        .add_knowledge(&mut provider, "text", "user_input")
        .unwrap_err();
    assert!(matches!(
        err,
        nucleus::rag::RagError::Embedder(nucleus::rag::EmbedderError::Provider(_))
    ));
    assert_eq!(engine.count(), 0);
}

/// A provider that answers a batch with too few embeddings.
struct ShortBatchProvider;

impl Provider for ShortBatchProvider {
    fn chat(&mut self, _request: &ChatRequest) -> Result<Vec<ChatResponse>, ProviderError> {
        Err(ProviderError::Other("no chat in this test".to_string()))
    }

    fn embed(&mut self, _text: &str, _model: &str) -> Result<Vec<i64>, ProviderError> {
        Ok(vec![SCALE, 0, 0, 0])
    }

    fn embed_batch(
        &mut self,
        _texts: &Vec<String>,
        _model: &str,
    ) -> Result<Vec<Vec<i64>>, ProviderError> {
        Ok(Vec::new())
    }
}

#[test]
fn test_index_files_short_batch_is_refused() {
    let mut engine = small_engine();
    let mut provider = ShortBatchProvider;
    let files = vec![IndexedFile {
        path: "a.txt".to_string(),
        content: "hello".to_string(),
    }];
    let err = engine.index_files(&mut provider, &files).unwrap_err();
    assert!(matches!(
        err,
        nucleus::rag::RagError::Embedder(nucleus::rag::EmbedderError::NoEmbeddings)
    ));
    assert_eq!(engine.count(), 0);
}

#[test]
fn test_retrieve_context_empty_store() {
    let mut engine = small_engine();
    let mut provider = FixedEmbedProvider { dim: 4 };
    let context = engine.retrieve_context(&mut provider, "anything").unwrap();
    assert_eq!(context, "");
}
