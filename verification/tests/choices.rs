//! Choices and the ranking engine.

use rff::choice::Choice;

#[test]
fn partial_cmp() {
    let a = Choice::new("amor", "app/models/order").unwrap();
    let b = Choice::new("amor", "app/models/zrder").unwrap();

    assert!(a > b);
}

#[test]
fn choice_new_filters() {
    assert!(Choice::new("amo", "app/models/order").is_some());
    assert!(Choice::new("oma", "app/models/order").is_none());
}

#[test]
fn choice_positions() {
    let c = Choice::with_positions("amor", "app/models/order").unwrap();
    assert_eq!(c.positions(), Some(&vec![0, 4, 11, 12]));
    assert_eq!(c.text(), "app/models/order");

    let plain = Choice::new("amor", "app/models/order").unwrap();
    assert!(plain.positions().is_none());
}

#[test]
fn ranked_order_end_to_end() {
    let candidates: Vec<String> = vec![
        "app/models/order.rb".to_string(),
        "spec/models/order_spec.rb".to_string(),
        "other_garbage.rb".to_string(),
        "Gemfile".to_string(),
        "node_modules/test/a/thing.js".to_string(),
        "vendor/bundle/ruby/gem.rb".to_string(),
    ];
    let ranked = rff::choice::rank("amor", &candidates);
    let texts: Vec<&str> = ranked.iter().map(|c| c.text()).collect();

    // Only the first candidate holds every query character in order: the
    // rest, lacking an "a" before the "mor" or any subsequence at all, are
    // excluded entirely.
    assert_eq!(texts, vec!["app/models/order.rb"]);

    let ranked = rff::choice::rank("mor", &candidates);
    let texts: Vec<&str> = ranked.iter().map(|c| c.text()).collect();
    assert_eq!(texts, vec!["app/models/order.rb", "spec/models/order_spec.rb"]);
}

#[test]
fn rank_empty_query_keeps_everything() {
    let candidates: Vec<String> = vec!["b".to_string(), "a".to_string()];
    let ranked = rff::choice::rank("", &candidates);
    assert_eq!(ranked.len(), 2);
}

#[test]
fn rank_drops_non_matches() {
    let candidates: Vec<String> = vec!["alpha".to_string(), "beta".to_string()];
    let ranked = rff::choice::rank("x", &candidates);
    assert_eq!(ranked.len(), 0);
}

#[test]
fn rank_keeps_duplicates() {
    let candidates: Vec<String> = vec![
        "src/main.rs".to_string(),
        "src/main.rs".to_string(),
        "README".to_string(),
    ];
    let ranked = rff::choice::rank("main", &candidates);
    assert_eq!(ranked.len(), 2);
    assert_eq!(ranked[0].text(), "src/main.rs");
    assert_eq!(ranked[1].text(), "src/main.rs");
}
