//! A fetched page and what can be read from it without fetching again.

use vstd::prelude::*;
use vstd::utf8::encode_utf8;

use crate::request::clone_optional;
use crate::error::{failure_from_str, ExceptionKind, Failure};

verus! {

broadcast use vstd::string::group_string_axioms;

/// A message the page wrote to the browser console.
#[derive(Clone, Debug)]
pub struct ConsoleMessage {
    /// The level, such as `"log"`, `"warn"` or `"error"`.
    pub level: String,
    pub message: String,
}

impl ConsoleMessage {
    pub fn new(level: String, message: String) -> (r: ConsoleMessage)
        ensures
            r.level == level,
            r.message == message,
    {
        ConsoleMessage { level, message }
    }
}

/// A page as servo-fetch hands it back.
#[derive(Clone, Debug)]
pub struct FetchedPage {
    pub html: String,
    pub inner_text: String,
    pub title: Option<String>,
    pub layout_json: Option<String>,
    pub js_result: Option<String>,
    pub accessibility_tree: Option<String>,
    pub console_messages: Vec<ConsoleMessage>,
    pub screenshot_png: Option<Vec<u8>>,
}

/// A fetched page together with the URL it was requested from.
#[derive(Clone, Debug)]
pub struct Page {
    pub url: String,
    pub html: String,
    pub inner_text: String,
    pub title: Option<String>,
    pub layout_json: Option<String>,
    pub js_result: Option<String>,
    pub accessibility_tree: Option<String>,
    pub console_messages: Vec<ConsoleMessage>,
    pub screenshot_png: Option<Vec<u8>>,
}

/// Number of messages at level `"error"`.
pub open spec fn error_count(messages: Seq<ConsoleMessage>) -> nat
    decreases messages.len(),
{
    if messages.len() == 0 {
        0
    } else {
        error_count(messages.drop_last()) + if messages.last().level@ == "error"@ {
            1nat
        } else {
            0nat
        }
    }
}

/// The base URL for extraction: the one given, else the page's own URL.
pub open spec fn base_url_for(url: Option<Seq<char>>, page_url: Seq<char>) -> Seq<char> {
    match url {
        Some(u) => u,
        None => page_url,
    }
}

pub open spec fn missing_screenshot_message() -> Seq<char> {
    "screenshot did not produce PNG data"@
}

fn optional_owned(s: Option<&str>) -> (r: Option<String>)
    ensures
        r.deep_view() == match s {
            Some(v) => Some(v@),
            None => None::<Seq<char>>,
        },
{
    match s {
        Some(v) => Some(v.to_string()),
        None => None,
    }
}

/// What content extraction reads from a page.
#[derive(Clone, Debug)]
pub struct ExtractionRequest {
    pub html: String,
    /// The URL that relative links are resolved against.
    pub base_url: String,
    pub layout_json: Option<String>,
    pub inner_text: String,
    /// A CSS selector that limits extraction to the matching elements.
    pub selector: Option<String>,
}

impl Page {
    /// The page servo-fetch returned for a request to `url`. The page keeps the
    /// requested URL, and everything else as servo-fetch gave it.
    pub fn from_fetched(fetched: FetchedPage, url: String) -> (r: Page)
        ensures
            r.url == url,
            r.html == fetched.html,
            r.inner_text == fetched.inner_text,
            r.title == fetched.title,
            r.layout_json == fetched.layout_json,
            r.js_result == fetched.js_result,
            r.accessibility_tree == fetched.accessibility_tree,
            r.console_messages@ == fetched.console_messages@,
            r.screenshot_png == fetched.screenshot_png,
    {
        Page {
            url,
            html: fetched.html,
            inner_text: fetched.inner_text,
            title: fetched.title,
            layout_json: fetched.layout_json,
            js_result: fetched.js_result,
            accessibility_tree: fetched.accessibility_tree,
            console_messages: fetched.console_messages,
            screenshot_png: fetched.screenshot_png,
        }
    }

    /// The page's rendered text.
    pub fn text(&self) -> (r: &str)
        ensures
            r@ == self.inner_text@,
    {
        self.inner_text.as_str()
    }

    /// Length of the HTML in bytes of UTF-8.
    pub fn html_len(&self) -> (r: usize)
        ensures
            r == encode_utf8(self.html@).len() as usize,
    {
        self.html.as_str().len()
    }

    /// Length of the rendered text in bytes of UTF-8.
    pub fn text_len(&self) -> (r: usize)
        ensures
            r == encode_utf8(self.inner_text@).len() as usize,
    {
        self.inner_text.as_str().len()
    }

    pub fn has_layout(&self) -> (r: bool)
        ensures
            r == self.layout_json is Some,
    {
        self.layout_json.is_some()
    }

    pub fn has_accessibility_tree(&self) -> (r: bool)
        ensures
            r == self.accessibility_tree is Some,
    {
        self.accessibility_tree.is_some()
    }

    pub fn has_screenshot(&self) -> (r: bool)
        ensures
            r == self.screenshot_png is Some,
    {
        self.screenshot_png.is_some()
    }

    /// Size of the screenshot in bytes, zero when there is none.
    pub fn screenshot_len(&self) -> (r: usize)
        ensures
            r == match self.screenshot_png {
                Some(png) => png@.len(),
                None => 0,
            },
    {
        match &self.screenshot_png {
            Some(png) => png.len(),
            None => 0,
        }
    }

    /// Number of console messages at level `"error"`.
    pub fn console_error_count(&self) -> (r: usize)
        ensures
            r == error_count(self.console_messages@),
    {
        let error_level = "error".to_string();
        let mut count: usize = 0;
        let mut i: usize = 0;
        while i < self.console_messages.len()
            invariant
                i <= self.console_messages@.len(),
                count <= i,
                count == error_count(self.console_messages@.take(i as int)),
                error_level@ == "error"@,
            decreases self.console_messages@.len() - i,
        {
            let ghost before = self.console_messages@.take(i as int);
            assert(self.console_messages@.take(i + 1).drop_last() == before);
            if self.console_messages[i].level == error_level {
                count = count + 1;
            }
            i = i + 1;
        }
        assert(self.console_messages@.take(i as int) == self.console_messages@);
        count
    }

    /// What content extraction reads: the HTML, the layout, the rendered text, the
    /// selector, and as base URL the given one or else the page's own URL.
    pub fn extraction_request(&self, url: Option<&str>, selector: Option<&str>) -> (r:
        ExtractionRequest)
        ensures
            r.html@ == self.html@,
            r.base_url@ == base_url_for(
                match url {
                    Some(u) => Some(u@),
                    None => None,
                },
                self.url@,
            ),
            r.layout_json.deep_view() == self.layout_json.deep_view(),
            r.inner_text@ == self.inner_text@,
            r.selector.deep_view() == match selector {
                Some(s) => Some(s@),
                None => None::<Seq<char>>,
            },
    {
        let base_url = match url {
            Some(u) => u.to_string(),
            None => self.url.clone(),
        };
        ExtractionRequest {
            html: self.html.clone(),
            base_url,
            layout_json: clone_optional(&self.layout_json),
            inner_text: self.inner_text.clone(),
            selector: optional_owned(selector),
        }
    }

    /// What to write for a screenshot request: nothing when no file name is given; the
    /// file name and the PNG bytes when the page has a screenshot; a `RuntimeError`
    /// otherwise.
    pub fn screenshot_to_write<'a>(&'a self, filename: Option<&'a str>) -> (r: Result<
        Option<(&'a str, &'a [u8])>,
        Failure,
    >)
        ensures
            filename is None ==> r matches Ok(None),
            filename matches Some(name) ==> match self.screenshot_png {
                Some(png) => r matches Ok(Some((n, bytes))) && n@ == name@ && bytes@ == png@,
                None => r matches Err(f) && f.is(
                    ExceptionKind::RuntimeError,
                    missing_screenshot_message(),
                ),
            },
    {
        match filename {
            None => Ok(None),
            Some(name) => match &self.screenshot_png {
                Some(png) => Ok(Some((name, png.as_slice()))),
                None => Err(
                    failure_from_str(
                        ExceptionKind::RuntimeError,
                        "screenshot did not produce PNG data",
                    ),
                ),
            },
        }
    }
}

/// Extraction from a page resolves relative links against the page's own URL unless the
/// caller gives another base URL, which then takes its place.
pub proof fn lemma_base_url_defaults_to_page(url: Option<Seq<char>>, page_url: Seq<char>)
    ensures
        url is None ==> base_url_for(url, page_url) == page_url,
        url matches Some(u) ==> base_url_for(url, page_url) == u,
{
}

/// The error count never exceeds the number of messages, and appending a message raises
/// it by one exactly when the message is at level `"error"`.
pub proof fn lemma_error_count_bounds(messages: Seq<ConsoleMessage>, m: ConsoleMessage)
    ensures
        error_count(messages) <= messages.len(),
        error_count(messages.push(m)) == error_count(messages) + if m.level@ == "error"@ {
            1nat
        } else {
            0nat
        },
    decreases messages.len(),
{
    if messages.len() > 0 {
        lemma_error_count_bounds(messages.drop_last(), messages.last());
    }
    assert(messages.push(m).drop_last() == messages);
}

} // verus!
