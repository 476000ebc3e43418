//! The request router's decisions: what to do with each input line.

use crate::protocol::{Event, EventView, Request};
use vstd::prelude::*;
use vstd::string::StringExecFns;

verus! {

/// A string without its leading and trailing white space, as `str::trim`
/// computes it.
pub uninterp spec fn trimmed(s: Seq<char>) -> Seq<char>;

/// Calls `str::trim`. The result is taken to be a function of the characters
/// of `s` alone.
#[verifier::external_body]
pub(crate) fn trim(s: &str) -> (r: &str)
    ensures
        r@ == trimmed(s@),
{
    s.trim()
}

/// What the router does with one input line.
#[derive(Debug, Clone, PartialEq, Eq)]
pub enum Action {
    /// Send `event` and go on reading.
    Reply { event: Event },
    /// Register `id` and start a scan of `path`, without waiting for it.
    Scan { id: u64, path: String, show_hidden: bool, max: usize },
    /// Signal the scan registered under `id`, if there is one.
    Cancel { id: u64 },
}

/// The event that answers a line that is no valid request.
pub open spec fn invalid_request(id: u64, details: Seq<char>) -> EventView {
    EventView::Error { id, message: "invalid request: "@ + details }
}

/// What is wrong with a page size of zero.
pub open spec fn zero_page_details() -> Seq<char> {
    "max must be a positive integer"@
}

/// The action that a decoded request calls for.
pub open spec fn request_calls_for(req: Request, act: Action) -> bool {
    match req {
        Request::List { id, path, show_hidden, max } | Request::Expand {
            id,
            path,
            show_hidden,
            max,
        } => if max >= 1 {
            act == (Action::Scan { id, path, show_hidden, max })
        } else {
            act matches Action::Reply { event } && event@ == invalid_request(
                id,
                zero_page_details(),
            )
        },
        Request::Cancel { id } => act == (Action::Cancel { id }),
    }
}

/// A cancel request calls for a signal and for nothing else: no event
/// answers it, whether or not a scan runs under its id.
pub proof fn lemma_cancel_calls_for_no_event(id: u64, act: Action)
    requires
        request_calls_for((Request::Cancel { id }), act),
    ensures
        act == (Action::Cancel { id }),
        !(act is Reply),
{
}

/// Whether a line holds nothing but white space; such a line is ignored.
pub fn is_blank(line: &str) -> (r: bool)
    ensures
        r == (trimmed(line@).len() == 0),
{
    trim(line).is_empty()
}

/// The error event for a request that is refused, under `id`.
pub fn refuse(id: u64, details: &str) -> (r: Event)
    ensures
        r@ == invalid_request(id, details@),
{
    let message = String::from_str("invalid request: ").concat(details);
    Event::Error { id, message }
}

/// The error event for a scan that failed, under the id of its request.
pub fn scan_failed(id: u64, message: String) -> (r: Event)
    ensures
        r@ == (EventView::Error { id, message: message@ }),
{
    Event::Error { id, message }
}

/// The action for a decoded request. `list` and `expand` both start a scan
/// with the request's own values; `cancel` signals and never answers with an
/// event. A page size of zero is refused under the request's id.
pub fn dispatch(req: Request) -> (r: Action)
    ensures
        request_calls_for(req, r),
{
    match req {
        Request::List { id, path, show_hidden, max } => start(id, path, show_hidden, max),
        Request::Expand { id, path, show_hidden, max } => start(id, path, show_hidden, max),
        Request::Cancel { id } => Action::Cancel { id },
    }
}

/// The action for a `list` or `expand` request with these values.
pub fn start(id: u64, path: String, show_hidden: bool, max: usize) -> (r: Action)
    ensures
        request_calls_for((Request::List { id, path, show_hidden, max }), r),
{
    if max >= 1 {
        Action::Scan { id, path, show_hidden, max }
    } else {
        Action::Reply { event: refuse(id, "max must be a positive integer") }
    }
}

/// The action for a line that is not blank, given what decoding it gave: the
/// request, or the decoder's words on why it is none. A line that does not
/// decode is answered with an error event under id 0; the router goes on.
pub fn route(decoded: Result<Request, String>) -> (r: Action)
    ensures
        match decoded {
            Ok(req) => request_calls_for(req, r),
            Err(details) => r matches Action::Reply { event } && event@ == invalid_request(
                0,
                details@,
            ),
        },
{
    match decoded {
        Ok(req) => dispatch(req),
        Err(details) => Action::Reply { event: refuse(0, details.as_str()) },
    }
}

} // verus!
