use servofetch::request::{
    plan_crawl, plan_fetch, plan_map, BrowserConfig, Capture, CrawlRequest, FetchMode,
};

fn config() -> BrowserConfig<f64> {
    BrowserConfig::new(30.0, 250, Some("default-agent".to_string()), false)
}

#[test]
fn fetch_plan_uses_browser_defaults() {
    let plan = plan_fetch(
        &config(),
        "https://example.com",
        None,
        None,
        None,
        FetchMode::Content { javascript: None },
    );
    assert_eq!(plan.url, "https://example.com");
    assert!(matches!(plan.capture, Capture::Content));
    assert_eq!(plan.timeout, 30.0);
    assert_eq!(plan.settle_ms, 250);
    assert_eq!(plan.user_agent.as_deref(), Some("default-agent"));
}

#[test]
fn fetch_plan_call_overrides_win() {
    let plan = plan_fetch(
        &config(),
        "https://example.com/a",
        Some(5.5),
        Some(0),
        Some("call-agent".to_string()),
        FetchMode::Content { javascript: Some("document.title".to_string()) },
    );
    assert!(matches!(plan.capture, Capture::Javascript(ref e) if e == "document.title"));
    assert_eq!(plan.timeout, 5.5);
    assert_eq!(plan.settle_ms, 0);
    assert_eq!(plan.user_agent.as_deref(), Some("call-agent"));
}

#[test]
fn fetch_plan_screenshot_mode() {
    let no_agent = BrowserConfig::new(10.0, 0, None, true);
    let plan = plan_fetch(&no_agent, "u", None, None, None, FetchMode::Screenshot { full_page: false });
    assert!(matches!(plan.capture, Capture::Screenshot(false)));
    assert_eq!(plan.user_agent, None);
    assert!(no_agent.allow_private_addresses);
}

#[test]
fn map_plan_resolution() {
    let plan = plan_map(
        &config(),
        "https://example.com",
        5000,
        Some(vec!["/docs/*".to_string()]),
        None,
        None,
        None,
        true,
    );
    assert_eq!(plan.url, "https://example.com");
    assert_eq!(plan.limit, 5000);
    assert_eq!(plan.included, Some(vec!["/docs/*".to_string()]));
    assert_eq!(plan.excluded, None);
    assert_eq!(plan.timeout, 30.0);
    assert_eq!(plan.user_agent.as_deref(), Some("default-agent"));
    assert!(plan.no_fallback);
    let overridden = plan_map(&config(), "u", 1, None, None, Some(2.0), Some("x".to_string()), false);
    assert_eq!(overridden.timeout, 2.0);
    assert_eq!(overridden.user_agent.as_deref(), Some("x"));
}

#[test]
fn crawl_plan_resolution() {
    let request = CrawlRequest {
        url: "https://example.com".to_string(),
        limit: 50,
        max_depth: 3,
        selector: Some("main".to_string()),
        json: true,
        included: None,
        excluded: Some(vec!["*.pdf".to_string()]),
        timeout: None,
        settle_ms: Some(900),
        user_agent: None,
        concurrency: 1,
        delay_ms: Some(10),
    };
    let plan = plan_crawl(&config(), request);
    assert_eq!(plan.url, "https://example.com");
    assert_eq!(plan.limit, 50);
    assert_eq!(plan.max_depth, 3);
    assert_eq!(plan.selector.as_deref(), Some("main"));
    assert!(plan.json);
    assert_eq!(plan.included, None);
    assert_eq!(plan.excluded, Some(vec!["*.pdf".to_string()]));
    assert_eq!(plan.timeout, 30.0);
    assert_eq!(plan.settle_ms, 900);
    assert_eq!(plan.user_agent.as_deref(), Some("default-agent"));
    assert_eq!(plan.concurrency, 1);
    assert_eq!(plan.delay_ms, Some(10));
}
