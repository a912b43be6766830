use nucleus::chunker::chunk_text;

#[test]
fn test_chunk_text_small() {
    let text = "Hello";
    let chunks = chunk_text(text, 10, 2);
    assert_eq!(chunks.len(), 1);
    assert_eq!(chunks[0], "Hello");
}

#[test]
fn test_chunk_text_with_overlap() {
    let text = "0123456789ABCDEF";
    let chunks = chunk_text(text, 10, 2);

    assert_eq!(chunks.len(), 2);
    assert_eq!(chunks[0], "0123456789");
    assert_eq!(chunks[1], "89ABCDEF");
}

#[test]
fn test_chunk_text_empty() {
    let chunks = chunk_text("", 10, 2);
    assert_eq!(chunks.len(), 0);
}

#[test]
fn test_chunk_text_multibyte_boundaries() {
    // Two-byte characters: nominal cuts fall inside code points and must
    // move to boundaries; every chunk stays valid UTF-8.
    let text = "ééééé";
    let chunks = chunk_text(text, 4, 1);
    assert!(!chunks.is_empty());
    for c in &chunks {
        assert!(c.chars().all(|ch| ch == 'é'));
    }
    assert_eq!(chunks[0], "éé");
}

#[test]
fn test_chunk_text_reassembles_ascii() {
    // Concatenating each chunk's non-overlapping prefix and the last
    // chunk whole rebuilds the text.
    let text = "abcdefghijklmnopqrstuvwxyz0123456789";
    let c = 8;
    let o = 3;
    let chunks = chunk_text(text, c, o);
    let mut rebuilt = String::new();
    for (i, chunk) in chunks.iter().enumerate() {
        if i + 1 < chunks.len() {
            rebuilt.push_str(&chunk[..c - o]);
        } else {
            rebuilt.push_str(chunk);
        }
    }
    assert_eq!(rebuilt, text);
}

#[test]
fn test_chunk_text_overlap_shared_bytes() {
    let text = "0123456789ABCDEFGHIJ";
    let chunks = chunk_text(text, 10, 4);
    // Consecutive full-width chunks share exactly the overlap.
    assert_eq!(&chunks[0][10 - 4..], &chunks[1][..4]);
}
