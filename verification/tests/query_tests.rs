use to_links::query::build_index_expression;
use to_links::search::{plan_search, SearchPlan};

#[test]
fn test_short_query_builds_literal_term() {
    // At most three characters after trimming: one quoted literal term.
    assert_eq!(build_index_expression("kb"), "\"kb\"");
    assert_eq!(build_index_expression("abc"), "\"abc\"");
}

#[test]
fn test_long_query_builds_or_joined_trigrams() {
    // "kubernetes" has ten characters, so eight sliding windows.
    assert_eq!(
        build_index_expression("kubernetes"),
        "\"kub\" OR \"ube\" OR \"ber\" OR \"ern\" OR \"rne\" OR \"net\" OR \"ete\" OR \"tes\""
    );
    // Four characters: the smallest query that decomposes, two windows.
    assert_eq!(build_index_expression("abcd"), "\"abc\" OR \"bcd\"");
}

#[test]
fn test_query_is_trimmed_before_building() {
    assert_eq!(build_index_expression("  kb \t"), "\"kb\"");
    assert_eq!(
        build_index_expression(" kubernetes\n"),
        build_index_expression("kubernetes")
    );
}

#[test]
fn test_quote_in_trigram_is_doubled() {
    // The windows of `ab"cd` are `ab"`, `b"c`, `"cd`; each embedded quote
    // is doubled before the term is wrapped in quotes.
    assert_eq!(
        build_index_expression("ab\"cd"),
        "\"ab\"\"\" OR \"b\"\"c\" OR \"\"\"cd\""
    );
    // A short query with a quote gets the same escaping in its literal term.
    assert_eq!(build_index_expression("a\"b"), "\"a\"\"b\"");
}

#[test]
fn test_empty_query_plans_listing() {
    // An empty or whitespace-only query bypasses fuzzy search: the plan is
    // the recency listing, over-fetched by one row.
    let plan = plan_search("", 1, 10);
    assert_eq!(plan, SearchPlan::Listing { fetch_limit: 11, offset: 0 });

    let plan = plan_search("   \t\n ", 3, 10);
    assert_eq!(plan, SearchPlan::Listing { fetch_limit: 11, offset: 20 });
}

#[test]
fn test_nonempty_query_plans_fuzzy_overfetch() {
    let plan = plan_search("kbernetes", 2, 10);
    let expected = build_index_expression("kbernetes");
    assert_eq!(
        plan,
        SearchPlan::Fuzzy { expression: expected, fetch_limit: 40 }
    );
}
