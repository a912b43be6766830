use nucleus::indexer;
use nucleus::patterns;

#[test]
fn test_should_exclude_git() {
    let path = "/home/user/project/.git/config";
    let pats = patterns::default_exclude_patterns();
    assert!(patterns::should_exclude(path, &pats));
}

#[test]
fn test_should_exclude_node_modules() {
    let path = "/home/user/project/node_modules/package/index.js";
    let pats = patterns::default_exclude_patterns();
    assert!(patterns::should_exclude(path, &pats));
}

#[test]
fn test_should_not_exclude_source() {
    let path = "/home/user/project/src/main.rs";
    let pats = patterns::default_exclude_patterns();
    assert!(!patterns::should_exclude(path, &pats));
}

#[test]
fn test_should_exclude_binary() {
    let path = "/home/user/project/image.png";
    let pats = patterns::default_exclude_patterns();
    assert!(patterns::should_exclude(path, &pats));
}

#[test]
fn test_is_indexable() {
    let extensions = vec!["rs".to_string(), "md".to_string()];

    assert!(indexer::is_indexable("test.rs", &extensions));
    assert!(indexer::is_indexable("test.md", &extensions));
    assert!(!indexer::is_indexable("test.exe", &extensions));
    assert!(!indexer::is_indexable("test", &extensions));
}

#[test]
fn test_is_indexable_empty_extensions() {
    let empty_extensions: Vec<String> = vec![];

    assert!(indexer::is_indexable("Dockerfile", &empty_extensions));
    assert!(indexer::is_indexable("Makefile", &empty_extensions));
    assert!(indexer::is_indexable("test.rs", &empty_extensions));
}

#[test]
fn test_should_exclude() {
    let pats = vec![
        "node_modules".to_string(),
        ".git".to_string(),
        "target".to_string(),
    ];

    assert!(indexer::should_exclude("src/node_modules/file.js", &pats));
    assert!(indexer::should_exclude(".git/config", &pats));
    assert!(indexer::should_exclude("target/debug/main", &pats));
    assert!(!indexer::should_exclude("src/main.rs", &pats));
}

#[test]
fn test_binary_extensions_uppercase() {
    let pats = patterns::default_exclude_patterns();
    assert!(patterns::should_exclude("/home/user/photo.PNG", &pats));
}
