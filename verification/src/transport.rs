//! The HTTP transport collaborator. The pipeline only decides; sending a
//! request over the network, honouring the proxy and the timeout, and
//! sleeping through a backoff are performed by an implementation of
//! [`Transport`] supplied by the surrounding process.

use vstd::prelude::*;
use vstd::string::*;

verus! {

/// One outgoing request, described with plain values: the target URL, query
/// parameters, header lines, an optional proxy endpoint to route through,
/// and a per-attempt timeout.
pub struct HttpRequest {
    pub url: String,
    pub query: Vec<(String, String)>,
    pub headers: Vec<(String, String)>,
    pub proxy: Option<String>,
    pub timeout_secs: u64,
}

/// What came back: either a response with its status, body and the
/// cookie-carrying header of the bypass service (when present), or a
/// transport failure (connect, send, receive or timeout).
pub enum HttpEvent {
    Response { status: u16, body: String, cookie_header: Option<String> },
    Failure { message: String },
}

/// The request/response transport. Nothing is assumed of its behaviour:
/// every caller in this library is verified against an arbitrary outcome of
/// `execute`. Implementations live outside the library (the real network
/// client) and in tests (scripted responses).
pub trait Transport {
    /// Perform one request and report its outcome.
    fn execute(&mut self, req: &HttpRequest) -> HttpEvent;

    /// Suspend the calling task for a backoff interval.
    fn sleep_secs(&mut self, secs: u64);
}

/// A status code that indicates success.
pub open spec fn is_success_status(s: u16) -> bool {
    200 <= s < 300
}

/// Executable test for `is_success_status`.
pub fn status_is_success(s: u16) -> (r: bool)
    ensures
        r == is_success_status(s),
{
    200 <= s && s < 300
}

/// The fixed `Accept` value sent on every outgoing request.
pub open spec fn accept_value() -> Seq<char> {
    "text/html,application/xhtml+xml,application/xml;q=0.9,image/avif,image/webp,*/*;q=0.8"@
}

/// The fixed browser-impersonating `User-Agent` value.
pub open spec fn user_agent_value() -> Seq<char> {
    "Mozilla/5.0 (Windows NT 10.0; Win64; x64) AppleWebKit/537.36 (KHTML, like Gecko) Chrome/130.0.0.0 Safari/537.36"@
}

/// The fixed header set shared by every outgoing request: a realistic
/// `Accept` value and a desktop-browser `User-Agent`.
pub fn default_headers() -> (h: Vec<(String, String)>)
    ensures
        h@.len() == 2,
        h@[0].0@ == "Accept"@,
        h@[0].1@ == accept_value(),
        h@[1].0@ == "User-Agent"@,
        h@[1].1@ == user_agent_value(),
{
    let mut h: Vec<(String, String)> = Vec::new();
    h.push(
        (
            "Accept".to_owned(),
            "text/html,application/xhtml+xml,application/xml;q=0.9,image/avif,image/webp,*/*;q=0.8".to_owned(),
        ),
    );
    h.push(
        (
            "User-Agent".to_owned(),
            "Mozilla/5.0 (Windows NT 10.0; Win64; x64) AppleWebKit/537.36 (KHTML, like Gecko) Chrome/130.0.0.0 Safari/537.36".to_owned(),
        ),
    );
    h
}

/// An independent copy of a list of header pairs.
pub fn clone_pairs(v: &Vec<(String, String)>) -> (r: Vec<(String, String)>)
    ensures
        r@.len() == v@.len(),
        forall|i: int|
            0 <= i < v@.len() ==> (#[trigger] r@[i]).0@ == v@[i].0@ && r@[i].1@ == v@[i].1@,
{
    let mut r: Vec<(String, String)> = Vec::new();
    let n = v.len();
    let mut j: usize = 0;
    while j < n
        invariant
            0 <= j <= n,
            n == v@.len(),
            r@.len() == j,
            forall|i: int|
                0 <= i < j ==> (#[trigger] r@[i]).0@ == v@[i].0@ && r@[i].1@ == v@[i].1@,
        decreases n - j,
    {
        r.push((v[j].0.clone(), v[j].1.clone()));
        j = j + 1;
    }
    r
}

} // verus!
