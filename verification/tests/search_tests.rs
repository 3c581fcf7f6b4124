use to_links::models::Link;
use to_links::search::{page_fuzzy, page_listing, rank_candidates};

fn record(key: &str) -> Link {
    Link {
        short_link: key.to_string(),
        url: format!("https://example.com/{}", key),
        created_at: 0,
    }
}

fn records(keys: &[&str]) -> Vec<Link> {
    keys.iter().map(|k| record(k)).collect()
}

#[test]
fn test_closest_key_ranks_first() {
    // "kbernetes" is one deletion away from "kubernetes", farther from the
    // other keys, so "kubernetes" must come first.
    let candidates = records(&["dockerfile", "kubectl", "kubernetes"]);
    let ranked = rank_candidates(candidates, "kbernetes");
    assert_eq!(ranked.len(), 3);
    assert_eq!(ranked[0].short_link, "kubernetes");

    let page = page_fuzzy(records(&["dockerfile", "kubectl", "kubernetes"]), "kbernetes", 0, 10);
    assert_eq!(page.items.len(), 3);
    assert_eq!(page.items[0].short_link, "kubernetes");
    assert!(!page.has_next);
}

#[test]
fn test_fuzzy_page_boundary_at_limit() {
    // Exactly ten candidates, page size ten: one full page, no next.
    let keys: Vec<String> = (0..10).map(|i| format!("link{:02}", i)).collect();
    let keyrefs: Vec<&str> = keys.iter().map(|k| k.as_str()).collect();
    let page = page_fuzzy(records(&keyrefs), "link", 0, 10);
    assert_eq!(page.items.len(), 10);
    assert!(!page.has_next);

    // Eleven candidates: page one is full and signals more; page two holds
    // the one record left beyond it.
    let keys: Vec<String> = (0..11).map(|i| format!("link{:02}", i)).collect();
    let keyrefs: Vec<&str> = keys.iter().map(|k| k.as_str()).collect();
    let page1 = page_fuzzy(records(&keyrefs), "link", 0, 10);
    assert_eq!(page1.items.len(), 10);
    assert!(page1.has_next);
    let page2 = page_fuzzy(records(&keyrefs), "link", 10, 10);
    assert_eq!(page2.items.len(), 1);
    assert!(!page2.has_next);
}

#[test]
fn test_offset_past_pool_is_empty() {
    let candidates = records(&["alpha", "beta", "gamma"]);
    let page = page_fuzzy(candidates, "alpha", 3, 10);
    assert_eq!(page.items.len(), 0);
    assert!(!page.has_next);

    let page = page_fuzzy(records(&["alpha"]), "alpha", 25, 5);
    assert_eq!(page.items.len(), 0);
    assert!(!page.has_next);

    let page = page_fuzzy(Vec::new(), "alpha", 0, 5);
    assert_eq!(page.items.len(), 0);
    assert!(!page.has_next);
}

#[test]
fn test_ranking_is_a_permutation() {
    let candidates = records(&["ccc", "a", "bb", "a"]);
    let ranked = rank_candidates(candidates, "a");
    assert_eq!(ranked.len(), 4);
    // Distances to "a": 0, 0, 2, 3 in some order consistent with sorting.
    assert_eq!(ranked[0].short_link, "a");
    assert_eq!(ranked[1].short_link, "a");
    assert_eq!(ranked[2].short_link, "bb");
    assert_eq!(ranked[3].short_link, "ccc");
}

#[test]
fn test_ranking_uses_trimmed_query() {
    let candidates = records(&["kubectl", "kubernetes"]);
    let ranked = rank_candidates(candidates, "  kbernetes ");
    assert_eq!(ranked[0].short_link, "kubernetes");
}

#[test]
fn test_listing_page_boundary_at_limit() {
    // The store hands the listing path at most limit + 1 pre-ordered rows.
    let keys: Vec<String> = (0..10).map(|i| format!("link{:02}", i)).collect();
    let keyrefs: Vec<&str> = keys.iter().map(|k| k.as_str()).collect();
    let page = page_listing(records(&keyrefs), 10);
    assert_eq!(page.items.len(), 10);
    assert!(!page.has_next);

    let keys: Vec<String> = (0..11).map(|i| format!("link{:02}", i)).collect();
    let keyrefs: Vec<&str> = keys.iter().map(|k| k.as_str()).collect();
    let page = page_listing(records(&keyrefs), 10);
    assert_eq!(page.items.len(), 10);
    assert!(page.has_next);
    // The extra row is dropped, the first ten stay in store order.
    for (i, item) in page.items.iter().enumerate() {
        assert_eq!(item.short_link, format!("link{:02}", i));
    }

    let page = page_listing(records(&["only"]), 10);
    assert_eq!(page.items.len(), 1);
    assert!(!page.has_next);
}
