use servofetch::error::ExceptionKind;
use servofetch::page::{ConsoleMessage, FetchedPage, Page};

fn message(level: &str) -> ConsoleMessage {
    ConsoleMessage::new(level.to_string(), format!("{level} message"))
}

fn fetched(screenshot: Option<Vec<u8>>) -> FetchedPage {
    FetchedPage {
        html: "<p>héllo</p>".to_string(),
        inner_text: "héllo".to_string(),
        title: Some("Hello".to_string()),
        layout_json: None,
        js_result: Some("42".to_string()),
        accessibility_tree: Some("tree".to_string()),
        console_messages: vec![message("log"), message("error"), message("warn"), message("error")],
        screenshot_png: screenshot,
    }
}

#[test]
fn page_keeps_requested_url_and_fields() {
    let page = Page::from_fetched(fetched(None), "https://example.com/x".to_string());
    assert_eq!(page.url, "https://example.com/x");
    assert_eq!(page.title.as_deref(), Some("Hello"));
    assert_eq!(page.js_result.as_deref(), Some("42"));
    assert_eq!(page.console_messages.len(), 4);
    assert_eq!(page.text(), "héllo");
}

#[test]
fn page_metrics() {
    let page = Page::from_fetched(fetched(Some(vec![1, 2, 3])), "u".to_string());
    assert_eq!(page.html_len(), "<p>héllo</p>".len());
    assert_eq!(page.html_len(), 13);
    assert_eq!(page.text_len(), 6);
    assert!(!page.has_layout());
    assert!(page.has_accessibility_tree());
    assert!(page.has_screenshot());
    assert_eq!(page.screenshot_len(), 3);
    assert_eq!(page.console_error_count(), 2);
}

#[test]
fn page_without_screenshot_has_zero_length() {
    let page = Page::from_fetched(fetched(None), "u".to_string());
    assert!(!page.has_screenshot());
    assert_eq!(page.screenshot_len(), 0);
}

#[test]
fn console_error_count_is_exact_level_match() {
    let mut f = fetched(None);
    f.console_messages = vec![message("Error"), message("errors"), message("")];
    let page = Page::from_fetched(f, "u".to_string());
    assert_eq!(page.console_error_count(), 0);
}

#[test]
fn extraction_defaults_to_page_url() {
    let page = Page::from_fetched(fetched(None), "https://example.com/base".to_string());
    let request = page.extraction_request(None, None);
    assert_eq!(request.base_url, "https://example.com/base");
    assert_eq!(request.html, "<p>héllo</p>");
    assert_eq!(request.inner_text, "héllo");
    assert_eq!(request.layout_json, None);
    assert_eq!(request.selector, None);
}

#[test]
fn extraction_url_override_and_selector() {
    let page = Page::from_fetched(fetched(None), "https://example.com/base".to_string());
    let request = page.extraction_request(Some("https://other.test/"), Some("main"));
    assert_eq!(request.base_url, "https://other.test/");
    assert_eq!(request.selector.as_deref(), Some("main"));
}

#[test]
fn screenshot_without_filename_writes_nothing() {
    let page = Page::from_fetched(fetched(None), "u".to_string());
    assert!(page.screenshot_to_write(None).unwrap().is_none());
}

#[test]
fn screenshot_with_filename_and_png() {
    let page = Page::from_fetched(fetched(Some(vec![0x89, 0x50])), "u".to_string());
    let (name, bytes) = page.screenshot_to_write(Some("page.png")).unwrap().unwrap();
    assert_eq!(name, "page.png");
    assert_eq!(bytes, &[0x89, 0x50]);
}

#[test]
fn screenshot_with_filename_but_no_png_fails() {
    let page = Page::from_fetched(fetched(None), "u".to_string());
    let failure = page.screenshot_to_write(Some("page.png")).unwrap_err();
    assert_eq!(failure.kind, ExceptionKind::RuntimeError);
    assert_eq!(failure.message, "screenshot did not produce PNG data");
}
