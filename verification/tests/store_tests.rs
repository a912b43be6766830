use nucleus::store::cosine_similarity;
use nucleus::store::Document;
use nucleus::store::StoreError;
use nucleus::store::VectorStore;
use nucleus::store::SCALE;

fn doc(id: &str, content: &str, embedding: Vec<i64>, source: &str) -> Document {
    Document::new(id.to_string(), content.to_string(), embedding)
        .with_metadata("source".to_string(), source.to_string())
}

#[test]
fn test_cosine_similarity() {
    // Identical unit vectors score 1.0 (the fixed-point scale).
    let a = vec![SCALE, 0, 0];
    let b = vec![SCALE, 0, 0];
    assert_eq!(cosine_similarity(&a, &b), SCALE as i128);

    // Orthogonal vectors score 0.0.
    let a = vec![SCALE, 0];
    let b = vec![0, SCALE];
    assert_eq!(cosine_similarity(&a, &b), 0);

    // A zero-magnitude vector on either side scores 0.0.
    let a = vec![0, 0];
    let b = vec![SCALE, 0];
    assert_eq!(cosine_similarity(&a, &b), 0);
    assert_eq!(cosine_similarity(&b, &a), 0);

    // Mismatched lengths score 0.0.
    let a = vec![SCALE, 0, 0];
    let b = vec![SCALE, 0];
    assert_eq!(cosine_similarity(&a, &b), 0);

    // Identical vectors score exactly 1.0 even at tiny magnitudes, and
    // the score never leaves [-1.0, 1.0].
    let a = vec![1, 1];
    assert_eq!(cosine_similarity(&a, &a), SCALE as i128);
    let a = vec![3, 7, 1];
    let b = vec![-2, 5, 9];
    let s = cosine_similarity(&a, &b);
    assert!(-(SCALE as i128) <= s && s <= SCALE as i128);

    // Symmetric in its arguments.
    assert_eq!(cosine_similarity(&a, &b), cosine_similarity(&b, &a));
}

#[test]
fn test_vector_store() {
    let mut store = VectorStore::new(3, 5);

    let d = doc("1", "test", vec![SCALE, 0, 0], "src");
    store.add(vec![d]).unwrap();

    assert_eq!(store.count(), 1);

    let results = store.search(&vec![SCALE, 0, 0]);
    assert_eq!(results.len(), 1);
    assert_eq!(results[0].score, SCALE as i128);
    assert_eq!(results[0].document.id, "1");
    // Results carry the document without its embedding.
    assert!(results[0].document.embedding.is_empty());
}

#[test]
fn test_search_ranking_and_ties() {
    let mut store = VectorStore::new(2, 2);
    store
        .add(vec![
            doc("far", "far", vec![0, SCALE], "a"),
            doc("near", "near", vec![SCALE, 0], "a"),
            doc("near2", "near two", vec![SCALE, 0], "a"),
        ])
        .unwrap();

    let results = store.search(&vec![SCALE, 0]);
    assert_eq!(results.len(), 2);
    // Best score first; the tie between the two equal documents breaks by
    // insertion order.
    assert_eq!(results[0].document.id, "near");
    assert_eq!(results[1].document.id, "near2");
}

#[test]
fn test_add_dimension_mismatch() {
    let mut store = VectorStore::new(3, 5);
    let d = doc("1", "short", vec![SCALE, 0], "src");
    assert_eq!(store.add(vec![d]), Err(StoreError::DimensionMismatch { index: 0 }));
    assert_eq!(store.count(), 0);
}

#[test]
fn test_add_upsert_replaces_by_id() {
    let mut store = VectorStore::new(2, 5);
    store
        .add(vec![doc("x", "one", vec![SCALE, 0], "a")])
        .unwrap();
    store
        .add(vec![doc("x", "two", vec![0, SCALE], "a")])
        .unwrap();
    assert_eq!(store.count(), 1);
    let results = store.search(&vec![0, SCALE]);
    assert_eq!(results[0].document.content, "two");
}

#[test]
fn test_remove_by_source_breadth() {
    let mut store = VectorStore::new(1, 10);
    store
        .add(vec![
            doc("1", "a", vec![SCALE], "./src/main.rs"),
            doc("2", "b", vec![SCALE], "./src/lib.rs"),
            doc("3", "c", vec![SCALE], "./docs/guide.md"),
            doc("4", "d", vec![SCALE], "./src"),
        ])
        .unwrap();

    // Everything equal to ./src or under ./src/ goes; the rest stays.
    let removed = store.remove_by_source("./src");
    assert_eq!(removed, 3);
    assert_eq!(store.count(), 1);
    let paths = store.get_indexed_paths();
    assert_eq!(paths, vec!["./docs/guide.md".to_string()]);
}

#[test]
fn test_remove_by_source_normalizes_separators() {
    let mut store = VectorStore::new(1, 10);
    store
        .add(vec![doc("1", "a", vec![SCALE], "src\\deep\\file.rs")])
        .unwrap();
    let removed = store.remove_by_source("src/deep");
    assert_eq!(removed, 1);
    assert_eq!(store.count(), 0);
}

#[test]
fn test_get_indexed_paths_unique() {
    let mut store = VectorStore::new(1, 10);
    store
        .add(vec![
            doc("1", "a", vec![SCALE], "one.rs"),
            doc("2", "b", vec![SCALE], "one.rs"),
            doc("3", "c", vec![SCALE], "two.rs"),
        ])
        .unwrap();
    let paths = store.get_indexed_paths();
    assert_eq!(paths, vec!["one.rs".to_string(), "two.rs".to_string()]);
}

#[test]
fn test_embedding_out_of_range() {
    let mut store = VectorStore::new(1, 5);
    let d = doc("1", "big", vec![i64::MAX], "src");
    assert_eq!(store.add(vec![d]), Err(StoreError::EmbeddingOutOfRange { index: 0 }));
}
