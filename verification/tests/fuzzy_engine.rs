use meta_indexer::engine::fuzzy_engine::FuzzyEngine;

#[test]
fn test_fuzzy_matching() {
    let engine = FuzzyEngine::new();
    let candidates = vec![
        "UserCreatedEvent".to_string(),
        "UserDeletedEvent".to_string(),
        "PostCreatedEvent".to_string(),
        "AuthService".to_string(),
    ];

    let results = engine.find_best_matches("UsrCreatd", &candidates, 2);
    assert!(!results.is_empty());
    assert_eq!(results[0].0, "UserCreatedEvent");
}

#[test]
fn best_matches_are_bounded_and_descending() {
    let engine = FuzzyEngine::new();
    let candidates: Vec<String> = ["abc", "abd", "xbc", "ab", "zzz"].iter().map(|s| s.to_string()).collect();
    let results = engine.find_best_matches("ab", &candidates, 3);
    assert!(results.len() <= 3);
    for w in results.windows(2) {
        assert!(w[0].1 >= w[1].1);
    }
    assert!(results.iter().all(|(c, _)| c.as_str() != "zzz"));
    assert!(engine.find_best_matches("ab", &candidates, 0).is_empty());
}
