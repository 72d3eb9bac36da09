//! What a browser asks servo-fetch for. A browser keeps defaults for the timeout, the
//! settle time and the user agent; every call may override each of them, and what the
//! call does not give falls back to the browser's default.
//!
//! The timeout is carried as a type parameter: the library only chooses between the
//! call's timeout and the browser's, and never computes with it.

use vstd::prelude::*;

verus! {

/// The value a call uses: its own when it gives one, else the browser's default.
pub open spec fn resolve<V>(call: Option<V>, default: V) -> V {
    match call {
        Some(v) => v,
        None => default,
    }
}

/// The user agent a call uses: its own when it gives one, else the browser's (which may
/// itself be absent).
pub open spec fn resolve_user_agent(
    call: Option<Seq<char>>,
    default: Option<Seq<char>>,
) -> Option<Seq<char>> {
    match call {
        Some(v) => Some(v),
        None => default,
    }
}

/// A copy of an optional string.
pub(crate) fn clone_optional(s: &Option<String>) -> (r: Option<String>)
    ensures
        r.deep_view() == s.deep_view(),
{
    match s {
        Some(v) => Some(v.clone()),
        None => None,
    }
}

fn pick_user_agent(call: Option<String>, default: &Option<String>) -> (r: Option<String>)
    ensures
        r.deep_view() == resolve_user_agent(call.deep_view(), default.deep_view()),
{
    match call {
        Some(v) => Some(v),
        None => clone_optional(default),
    }
}

/// The defaults a browser was created with. `T` is the timeout's representation.
#[derive(Clone, Debug)]
pub struct BrowserConfig<T> {
    pub timeout: T,
    pub settle_ms: u64,
    pub user_agent: Option<String>,
    pub allow_private_addresses: bool,
}

impl<T> BrowserConfig<T> {
    pub fn new(
        timeout: T,
        settle_ms: u64,
        user_agent: Option<String>,
        allow_private_addresses: bool,
    ) -> (r: BrowserConfig<T>)
        ensures
            r.timeout == timeout,
            r.settle_ms == settle_ms,
            r.user_agent == user_agent,
            r.allow_private_addresses == allow_private_addresses,
    {
        BrowserConfig { timeout, settle_ms, user_agent, allow_private_addresses }
    }
}

/// What a page fetch is for.
#[derive(Clone, Debug)]
pub enum FetchMode {
    /// Load the page's content, optionally evaluating a JavaScript expression.
    Content { javascript: Option<String> },
    /// Capture a screenshot, of the whole page or of the viewport.
    Screenshot { full_page: bool },
}

/// How servo-fetch is asked to load the page.
#[derive(Clone, Debug)]
pub enum Capture {
    /// Load the page and evaluate this JavaScript expression.
    Javascript(String),
    /// Load the page.
    Content,
    /// Load the page and capture a screenshot (`true`: the whole page).
    Screenshot(bool),
}

pub open spec fn capture_for(mode: FetchMode) -> Capture {
    match mode {
        FetchMode::Content { javascript: Some(expression) } => Capture::Javascript(expression),
        FetchMode::Content { javascript: None } => Capture::Content,
        FetchMode::Screenshot { full_page } => Capture::Screenshot(full_page),
    }
}

/// A page fetch with every option settled.
#[derive(Clone, Debug)]
pub struct FetchPlan<T> {
    pub url: String,
    pub capture: Capture,
    pub timeout: T,
    pub settle_ms: u64,
    pub user_agent: Option<String>,
}

/// Settles a page fetch: the capture follows the mode, and the timeout, the settle time
/// and the user agent are the call's where it gives them, else the browser's.
pub fn plan_fetch<T: Copy>(
    config: &BrowserConfig<T>,
    url: &str,
    timeout: Option<T>,
    settle_ms: Option<u64>,
    user_agent: Option<String>,
    mode: FetchMode,
) -> (r: FetchPlan<T>)
    ensures
        r.url@ == url@,
        r.capture == capture_for(mode),
        r.timeout == resolve(timeout, config.timeout),
        r.settle_ms == resolve(settle_ms, config.settle_ms),
        r.user_agent.deep_view() == resolve_user_agent(
            user_agent.deep_view(),
            config.user_agent.deep_view(),
        ),
{
    let capture = match mode {
        FetchMode::Content { javascript: Some(expression) } => Capture::Javascript(expression),
        FetchMode::Content { javascript: None } => Capture::Content,
        FetchMode::Screenshot { full_page } => Capture::Screenshot(full_page),
    };
    let timeout = match timeout {
        Some(t) => t,
        None => config.timeout,
    };
    let settle_ms = match settle_ms {
        Some(s) => s,
        None => config.settle_ms,
    };
    FetchPlan {
        url: url.to_string(),
        capture,
        timeout,
        settle_ms,
        user_agent: pick_user_agent(user_agent, &config.user_agent),
    }
}

/// A site-map request with every option settled.
#[derive(Clone, Debug)]
pub struct MapPlan<T> {
    pub url: String,
    pub limit: usize,
    pub included: Option<Vec<String>>,
    pub excluded: Option<Vec<String>>,
    pub timeout: T,
    pub user_agent: Option<String>,
    pub no_fallback: bool,
}

/// Settles a site-map request: the timeout and the user agent are the call's where it
/// gives them, else the browser's; everything else is the call's.
pub fn plan_map<T: Copy>(
    config: &BrowserConfig<T>,
    url: &str,
    limit: usize,
    included: Option<Vec<String>>,
    excluded: Option<Vec<String>>,
    timeout: Option<T>,
    user_agent: Option<String>,
    no_fallback: bool,
) -> (r: MapPlan<T>)
    ensures
        r.url@ == url@,
        r.limit == limit,
        r.included == included,
        r.excluded == excluded,
        r.timeout == resolve(timeout, config.timeout),
        r.user_agent.deep_view() == resolve_user_agent(
            user_agent.deep_view(),
            config.user_agent.deep_view(),
        ),
        r.no_fallback == no_fallback,
{
    let timeout = match timeout {
        Some(t) => t,
        None => config.timeout,
    };
    MapPlan {
        url: url.to_string(),
        limit,
        included,
        excluded,
        timeout,
        user_agent: pick_user_agent(user_agent, &config.user_agent),
        no_fallback,
    }
}

/// The options of a crawl as the caller gives them.
#[derive(Clone, Debug)]
pub struct CrawlRequest<T> {
    pub url: String,
    pub limit: usize,
    pub max_depth: usize,
    pub selector: Option<String>,
    pub json: bool,
    pub included: Option<Vec<String>>,
    pub excluded: Option<Vec<String>>,
    pub timeout: Option<T>,
    pub settle_ms: Option<u64>,
    pub user_agent: Option<String>,
    pub concurrency: usize,
    pub delay_ms: Option<u64>,
}

/// A crawl with every option settled.
#[derive(Clone, Debug)]
pub struct CrawlPlan<T> {
    pub url: String,
    pub limit: usize,
    pub max_depth: usize,
    pub selector: Option<String>,
    pub json: bool,
    pub included: Option<Vec<String>>,
    pub excluded: Option<Vec<String>>,
    pub timeout: T,
    pub settle_ms: u64,
    pub user_agent: Option<String>,
    pub concurrency: usize,
    pub delay_ms: Option<u64>,
}

/// Settles a crawl: the timeout, the settle time and the user agent are the call's where
/// it gives them, else the browser's; everything else is the call's.
pub fn plan_crawl<T: Copy>(config: &BrowserConfig<T>, request: CrawlRequest<T>) -> (r: CrawlPlan<T>)
    ensures
        r.url == request.url,
        r.limit == request.limit,
        r.max_depth == request.max_depth,
        r.selector == request.selector,
        r.json == request.json,
        r.included == request.included,
        r.excluded == request.excluded,
        r.timeout == resolve(request.timeout, config.timeout),
        r.settle_ms == resolve(request.settle_ms, config.settle_ms),
        r.user_agent.deep_view() == resolve_user_agent(
            request.user_agent.deep_view(),
            config.user_agent.deep_view(),
        ),
        r.concurrency == request.concurrency,
        r.delay_ms == request.delay_ms,
{
    let timeout = match request.timeout {
        Some(t) => t,
        None => config.timeout,
    };
    let settle_ms = match request.settle_ms {
        Some(s) => s,
        None => config.settle_ms,
    };
    CrawlPlan {
        url: request.url,
        limit: request.limit,
        max_depth: request.max_depth,
        selector: request.selector,
        json: request.json,
        included: request.included,
        excluded: request.excluded,
        timeout,
        settle_ms,
        user_agent: pick_user_agent(request.user_agent, &config.user_agent),
        concurrency: request.concurrency,
        delay_ms: request.delay_ms,
    }
}

/// A screenshot plan keeps the requested flag, so whole-page and viewport screenshots
/// stay apart; a content plan keeps the JavaScript expression, or its absence.
pub proof fn lemma_capture_follows_mode(full_page: bool, javascript: Option<String>)
    ensures
        capture_for(FetchMode::Screenshot { full_page }) == Capture::Screenshot(full_page),
        capture_for(FetchMode::Screenshot { full_page: true }) != capture_for(
            FetchMode::Screenshot { full_page: false },
        ),
        capture_for(FetchMode::Content { javascript: None }) == Capture::Content,
        javascript matches Some(e) ==> capture_for(FetchMode::Content { javascript })
            == Capture::Javascript(e),
{
}

} // verus!
