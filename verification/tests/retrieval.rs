use mia::search::{build_search_outcome, normalize_url, search_connect_failure_outcome,
    search_init_failure_outcome, search_outcome_from_html, search_url_for};

fn triple(
    title: Option<&str>,
    snippet: Option<&str>,
    href: Option<&str>,
) -> (Option<String>, Option<String>, Option<String>) {
    (
        title.map(|s| s.to_string()),
        snippet.map(|s| s.to_string()),
        href.map(|s| s.to_string()),
    )
}

#[test]
fn zero_triples_degrade_to_no_results() {
    let (context, sources) = build_search_outcome(&Vec::new());
    assert_eq!(context, "No search results found on the web.");
    assert!(!context.is_empty());
    assert!(sources.is_empty());
}

#[test]
fn unusable_triples_also_degrade_to_no_results() {
    let results = vec![
        triple(None, Some("snippet"), Some("http://a")),
        triple(Some("title"), None, Some("http://a")),
        triple(Some(""), Some("snippet"), Some("http://a")),
        triple(Some("title"), Some("snippet"), Some("")),
        triple(Some("title"), Some("snippet"), None),
    ];
    let (context, sources) = build_search_outcome(&results);
    assert_eq!(context, "No search results found on the web.");
    assert!(sources.is_empty());
}

#[test]
fn context_block_lists_usable_triples_in_order() {
    let results = vec![
        triple(Some("A"), Some("first"), Some("http://a.example")),
        triple(None, Some("skipped"), Some("http://b.example")),
        triple(Some("C"), Some("third"), Some("http://c.example")),
    ];
    let (context, sources) = build_search_outcome(&results);
    let expected = "\nWeb Search Data (Current Date: 2026):\n\
                    - Source: A\n  Content: first\n\n\
                    - Source: C\n  Content: third\n\n";
    assert_eq!(context, expected);
    assert_eq!(sources.len(), 2);
    assert_eq!(sources[0].title, "A");
    assert_eq!(sources[1].url, "http://c.example");
}

#[test]
fn only_first_five_triples_are_considered() {
    let mut results = Vec::new();
    for i in 0..8 {
        results.push(triple(
            Some(&format!("T{}", i)),
            Some("s"),
            Some(&format!("http://x{}.example", i)),
        ));
    }
    let (_, sources) = build_search_outcome(&results);
    assert_eq!(sources.len(), 5);
    assert_eq!(sources[4].title, "T4");
}

#[test]
fn url_normalization_rules() {
    assert_eq!(normalize_url("//cdn.example/a"), "https://cdn.example/a");
    assert_eq!(normalize_url("http://plain.example"), "http://plain.example");
    assert_eq!(normalize_url("https://secure.example"), "https://secure.example");
    assert_eq!(normalize_url("/l/?kh=1"), "https://duckduckgo.com/l/?kh=1");
    // a scheme word in the middle does not make a link absolute
    assert_eq!(normalize_url("/l?u=http"), "https://duckduckgo.com/l?u=http");
    assert_eq!(normalize_url("httpx.example"), "https://duckduckgo.comhttpx.example");
}

#[test]
fn html_extraction_end_to_end() {
    let html = "<html><body>\
        <div class=\"result__body\">\
          <a class=\"result__a\" href=\"//example.com/a\">Title A</a>\
          <div class=\"result__snippet\">Snip A</div>\
        </div>\
        <div class=\"result__body\">\
          <a class=\"result__a\" href=\"/rel\">Title B</a>\
          <div class=\"result__snippet\">Snip B</div>\
        </div>\
      </body></html>";
    let (context, sources) = search_outcome_from_html(html);
    assert_eq!(sources.len(), 2);
    assert_eq!(sources[0].title, "Title A");
    assert_eq!(sources[0].url, "https://example.com/a");
    assert_eq!(sources[1].url, "https://duckduckgo.com/rel");
    assert!(context.starts_with("\nWeb Search Data (Current Date: 2026):\n"));
    assert!(context.contains("- Source: Title A\n  Content: Snip A\n\n"));
    assert!(context.contains("- Source: Title B\n  Content: Snip B\n\n"));
}

#[test]
fn html_without_results_degrades_gracefully() {
    let (context, sources) = search_outcome_from_html("<html><body><p>nothing</p></body></html>");
    assert_eq!(context, "No search results found on the web.");
    assert!(sources.is_empty());
}

#[test]
fn html_result_missing_snippet_element_is_skipped() {
    let html = "<div class=\"result__body\">\
          <a class=\"result__a\" href=\"http://only.example\">Only title</a>\
        </div>";
    let (context, sources) = search_outcome_from_html(html);
    assert_eq!(context, "No search results found on the web.");
    assert!(sources.is_empty());
}

#[test]
fn failure_outcomes_have_empty_sources() {
    let (c1, s1) = search_init_failure_outcome();
    assert_eq!(c1, "Search failed to initialize.");
    assert!(s1.is_empty());
    let (c2, s2) = search_connect_failure_outcome();
    assert_eq!(c2, "Failed to connect to search engine.");
    assert!(s2.is_empty());
}

#[test]
fn query_url_is_percent_encoded() {
    assert_eq!(
        search_url_for("hello world"),
        "https://html.duckduckgo.com/html/?q=hello%20world"
    );
    assert_eq!(search_url_for("a+b&c"), "https://html.duckduckgo.com/html/?q=a%2Bb%26c");
    assert_eq!(search_url_for("abc-_.~09AZ"), "https://html.duckduckgo.com/html/?q=abc-_.~09AZ");
    assert_eq!(search_url_for("é"), "https://html.duckduckgo.com/html/?q=%C3%A9");
}
