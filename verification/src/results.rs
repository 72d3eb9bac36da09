//! Results of site mapping and crawling.

use vstd::prelude::*;

verus! {

/// A URL found while mapping a site, with its last-modified date when the sitemap gives one.
#[derive(Clone, Debug)]
pub struct MappedUrl {
    pub url: String,
    pub lastmod: Option<String>,
}

impl MappedUrl {
    pub fn new(url: String, lastmod: Option<String>) -> (r: MappedUrl)
        ensures
            r.url == url,
            r.lastmod == lastmod,
    {
        MappedUrl { url, lastmod }
    }
}

/// What a crawl read from a page it could load.
#[derive(Clone, Debug)]
pub struct CrawledPage {
    pub title: Option<String>,
    pub content: String,
    pub links_found: usize,
}

/// One page of a crawl: where and how deep it was, and either its content or why it
/// could not be loaded.
#[derive(Clone, Debug)]
pub struct CrawlResult {
    pub url: String,
    pub depth: usize,
    pub ok: bool,
    pub title: Option<String>,
    pub content: Option<String>,
    pub error: Option<String>,
    pub links_found: usize,
}

impl CrawlResult {
    /// The result for the page at `url`, reached at `depth`, whose load gave `outcome`
    /// (the page read, or the error message). A loaded page is `ok`, has its title,
    /// content and link count and no error; a failed one is not `ok`, has only the error
    /// message, and counts no links.
    pub fn from_outcome(url: String, depth: usize, outcome: Result<CrawledPage, String>) -> (r:
        CrawlResult)
        ensures
            r.url == url,
            r.depth == depth,
            r.ok == outcome is Ok,
            r.ok <==> r.error is None,
            r.ok <==> r.content is Some,
            match outcome {
                Ok(page) => r.title == page.title && r.content == Some(page.content)
                    && r.error is None && r.links_found == page.links_found,
                Err(message) => r.title is None && r.content is None && r.error == Some(message)
                    && r.links_found == 0,
            },
    {
        match outcome {
            Ok(page) => CrawlResult {
                url,
                depth,
                ok: true,
                title: page.title,
                content: Some(page.content),
                error: None,
                links_found: page.links_found,
            },
            Err(message) => CrawlResult {
                url,
                depth,
                ok: false,
                title: None,
                content: None,
                error: Some(message),
                links_found: 0,
            },
        }
    }
}

} // verus!
