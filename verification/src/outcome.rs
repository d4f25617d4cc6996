//! What a fetch worker reports: the links of a page, or the reason there are none.

use crate::crawl::Report;
use crate::html::{page_links, process_html, texts};
use crate::urls::Url;
use vstd::prelude::*;

verus! {

/// The result of one successful fetch: the page's URL, the status it was served
/// with, and the raw link strings found on it in document order.
#[derive(Debug)]
pub struct ParseOutcome {
    pub url: Url,
    pub status: u16,
    pub links: Vec<String>,
}

/// What the orchestrator reads of an outcome.
pub struct Page {
    pub url: Seq<char>,
    pub links: Seq<Seq<char>>,
}

impl View for ParseOutcome {
    type V = Page;

    open spec fn view(&self) -> Page {
        Page { url: self.url@, links: texts(self.links@) }
    }
}

impl ParseOutcome {
    pub fn new(url: Url, status: u16, links: Vec<String>) -> (res: ParseOutcome)
        ensures
            res.url == url,
            res.status == status,
            res.links == links,
    {
        ParseOutcome { url, status, links }
    }
}

/// What the transport hands back for one request.
#[derive(Debug)]
pub struct Response {
    pub status: u16,
    pub body: Vec<u8>,
}

/// Why a fetch delivered no outcome.
#[derive(Debug, Clone, Copy, PartialEq, Eq, Structural)]
pub enum SkipReason {
    /// The transport failed before a complete response arrived.
    Transport,
    /// The response carried a status that is neither a success nor 301 or 302.
    BadStatus { status: u16 },
    /// The page was too long to be parsed.
    ParseFailed,
}

/// One fetch attempt as the orchestrator sees it.
#[derive(Debug)]
pub enum FetchOutcome {
    Success(ParseOutcome),
    Skipped(SkipReason),
}

impl View for FetchOutcome {
    type V = Report;

    open spec fn view(&self) -> Report {
        match self {
            FetchOutcome::Success(outcome) => Report::Page(outcome@),
            FetchOutcome::Skipped(_) => Report::Skipped,
        }
    }
}

/// The statuses whose body is parsed for links: every 2xx, and the redirects
/// 301 and 302, whose own body is read; their `Location` is not followed.
pub open spec fn status_accepted(status: u16) -> bool {
    200 <= status <= 299 || status == 301 || status == 302
}

/// Whether the body of a response with this status is parsed for links.
pub fn accepts_status(status: u16) -> (res: bool)
    ensures
        res == status_accepted(status),
{
    (200 <= status && status <= 299) || status == 301 || status == 302
}

/// Turns what the transport returned for `url` into the worker's report.
/// `None` stands for a transport failure.
pub fn conclude_fetch(url: Url, response: Option<Response>) -> (res: FetchOutcome)
    ensures
        match response {
            None => res == FetchOutcome::Skipped(SkipReason::Transport),
            Some(r) => if !status_accepted(r.status) {
                res == FetchOutcome::Skipped(SkipReason::BadStatus { status: r.status })
            } else {
                match page_links(r.body@) {
                    None => res == FetchOutcome::Skipped(SkipReason::ParseFailed),
                    Some(links) => res matches FetchOutcome::Success(outcome) && outcome.url == url
                        && outcome.status == r.status && texts(outcome.links@) == links,
                }
            },
        },
{
    match response {
        None => FetchOutcome::Skipped(SkipReason::Transport),
        Some(r) => {
            if !accepts_status(r.status) {
                FetchOutcome::Skipped(SkipReason::BadStatus { status: r.status })
            } else {
                match process_html(r.body.as_slice()) {
                    Ok(links) => FetchOutcome::Success(ParseOutcome::new(url, r.status, links)),
                    Err(_) => FetchOutcome::Skipped(SkipReason::ParseFailed),
                }
            }
        },
    }
}

} // verus!
