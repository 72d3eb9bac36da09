use servofetch::results::{CrawlResult, CrawledPage, MappedUrl};

#[test]
fn mapped_url_keeps_fields() {
    let mapped = MappedUrl::new("https://example.com/a".to_string(), Some("2024-01-01".to_string()));
    assert_eq!(mapped.url, "https://example.com/a");
    assert_eq!(mapped.lastmod.as_deref(), Some("2024-01-01"));
}

#[test]
fn crawl_result_from_loaded_page() {
    let page = CrawledPage {
        title: Some("Home".to_string()),
        content: "# Home".to_string(),
        links_found: 7,
    };
    let result = CrawlResult::from_outcome("https://example.com".to_string(), 0, Ok(page));
    assert_eq!(result.url, "https://example.com");
    assert_eq!(result.depth, 0);
    assert!(result.ok);
    assert_eq!(result.title.as_deref(), Some("Home"));
    assert_eq!(result.content.as_deref(), Some("# Home"));
    assert_eq!(result.error, None);
    assert_eq!(result.links_found, 7);
}

#[test]
fn crawl_result_from_failure() {
    let result = CrawlResult::from_outcome(
        "https://example.com/missing".to_string(),
        2,
        Err("HTTP 404".to_string()),
    );
    assert_eq!(result.depth, 2);
    assert!(!result.ok);
    assert_eq!(result.title, None);
    assert_eq!(result.content, None);
    assert_eq!(result.error.as_deref(), Some("HTTP 404"));
    assert_eq!(result.links_found, 0);
}
