//! The fetch pipeline: cookie-state management with single-flight refresh,
//! and the bounded retry/backoff state machine driven by HTTP status codes.
//! One logical fetch makes up to three attempts; recoverable failures turn
//! into a refresh trigger and/or a backoff, and only exhaustion of the
//! attempt bound reaches the caller.

use vstd::prelude::*;
use vstd::string::*;

use crate::cookies::{header_of, CookieSet};
use crate::cookies_handler::BaseCookiesHandler;
use crate::proxy_handler::ProxyHandler;
use crate::transport::{accept_value, default_headers, user_agent_value, HttpEvent, HttpRequest,
    Transport};

verus! {

/// The shared cookie state: one writer at a time, snapshot reads. In this
/// sequential model exclusive access stands for the write lock; a
/// concurrent process wraps the store in its runtime's reader/writer lock
/// and keeps the same contract.
pub struct CookieManager {
    cookies: CookieSet,
}

impl View for CookieManager {
    type V = Seq<(Seq<char>, Seq<char>)>;

    closed spec fn view(&self) -> Seq<(Seq<char>, Seq<char>)> {
        self.cookies@
    }
}

impl CookieManager {
    /// Names stay pairwise distinct.
    pub closed spec fn wf(&self) -> bool {
        self.cookies.wf()
    }

    /// An empty store.
    pub fn new() -> (r: CookieManager)
        ensures
            r@ =~= Seq::<(Seq<char>, Seq<char>)>::empty(),
            r.wf(),
    {
        CookieManager { cookies: CookieSet::new() }
    }

    /// A snapshot copy of the current set; the caller never observes writes
    /// made after the call returns.
    pub fn get_cookies(&self) -> (r: CookieSet)
        ensures
            r@ == self@,
            self.wf() ==> r.wf(),
    {
        self.cookies.duplicate()
    }

    /// Replace the entire set atomically.
    pub fn set_cookies(&mut self, new_cookies: CookieSet)
        requires
            new_cookies.wf(),
        ensures
            final(self)@ == new_cookies@,
            final(self).wf(),
    {
        self.cookies = new_cookies;
    }
}

/// Reading immediately after a replace, with no intervening write, yields
/// exactly the replaced set: `set_cookies(x)` leaves the store at `x@`, and
/// `get_cookies` returns the store's value.
pub proof fn lemma_read_after_replace(store: CookieManager, x: CookieSet, r: CookieSet)
    requires
        store@ == x@,
        r@ == store@,
    ensures
        r@ == x@,
{
}

/// Snapshot reads are atomic: around a single replace that turned `pre`
/// into `post`, a read sees one of the two complete states — under the
/// single-writer discipline it can never run against a half-written store —
/// so what it returns is the whole pre-image or the whole post-image,
/// never a mixture.
pub proof fn lemma_read_atomic(
    pre: CookieManager,
    post: CookieManager,
    x: CookieSet,
    observed: CookieManager,
    r: CookieSet,
)
    requires
        post@ == x@,
        observed == pre || observed == post,
        r@ == observed@,
    ensures
        r@ == pre@ || r@ == x@,
{
}

/// The single-flight token guarding cookie refresh: a non-blocking
/// try-acquire that fails, instead of waiting, while another refresh is in
/// flight.
pub struct RefreshGuard {
    held: bool,
}

impl RefreshGuard {
    /// Whether a refresh is in flight.
    pub closed spec fn is_held(&self) -> bool {
        self.held
    }

    pub fn new() -> (r: RefreshGuard)
        ensures
            !r.is_held(),
    {
        RefreshGuard { held: false }
    }

    /// Take the token if it is free; never blocks.
    pub fn try_acquire(&mut self) -> (r: bool)
        ensures
            r == !old(self).is_held(),
            final(self).is_held(),
    {
        if self.held {
            false
        } else {
            self.held = true;
            true
        }
    }

    /// Give the token back.
    pub fn release(&mut self)
        ensures
            !final(self).is_held(),
    {
        self.held = false;
    }
}

/// Exactly one of two racing refresh triggers runs the refresh: the trigger
/// that finds the guard free acquires it, and a trigger that arrives before
/// the release finds it held and skips.
pub proof fn lemma_single_flight(
    g0: RefreshGuard,
    g1: RefreshGuard,
    r1: bool,
    r2: bool,
)
    requires
        !g0.is_held(),
        r1 == !g0.is_held(),
        g1.is_held(),
        r2 == !g1.is_held(),
    ensures
        r1,
        !r2,
{
}

/// The failure classes of one attempt. A transport error, a non-success
/// status and an empty success body are recovered locally by the retry
/// loop; only `AttemptsExhaustedError` reaches the caller. Provider
/// failures are carried by `CookieException` and are swallowed by the
/// refresh protocol.
#[derive(Clone, Copy, PartialEq, Eq, Structural, Debug)]
pub enum FetchError {
    TransportError,
    UpstreamStatusError(u16),
    EmptyResponseError,
    AttemptsExhaustedError,
}

/// What the retry loop does after classifying one attempt's outcome.
#[derive(Clone, Copy, PartialEq, Eq, Structural, Debug)]
pub enum Decision {
    /// Terminal success: return the body.
    Accept,
    /// Refresh the cookies and retry without an extra delay.
    RefreshRetry,
    /// Refresh the cookies, sleep the given backoff, then retry.
    RefreshBackoffRetry(u64),
    /// Sleep the given backoff, then retry without refreshing.
    BackoffRetry(u64),
}

/// The status-driven retry policy: a success body is accepted; an empty
/// success body refreshes and retries at once; rate limiting refreshes and
/// backs off one second; a forbidden status backs off two seconds without
/// refreshing; anything else, including transport failure, backs off one
/// second.
pub open spec fn classify_spec(ev: HttpEvent) -> Decision {
    match ev {
        HttpEvent::Failure { .. } => Decision::BackoffRetry(1),
        HttpEvent::Response { status, body, .. } => {
            if status == 200 {
                if body@.len() == 0 {
                    Decision::RefreshRetry
                } else {
                    Decision::Accept
                }
            } else if status == 429 {
                Decision::RefreshBackoffRetry(1)
            } else if status == 403 {
                Decision::BackoffRetry(2)
            } else {
                Decision::BackoffRetry(1)
            }
        },
    }
}

/// The failure class of one attempt's outcome, or none on acceptance.
pub open spec fn error_of_spec(ev: HttpEvent) -> Option<FetchError> {
    match ev {
        HttpEvent::Failure { .. } => Some(FetchError::TransportError),
        HttpEvent::Response { status, body, .. } => {
            if status == 200 {
                if body@.len() == 0 {
                    Some(FetchError::EmptyResponseError)
                } else {
                    None
                }
            } else {
                Some(FetchError::UpstreamStatusError(status))
            }
        },
    }
}

/// Classify one attempt's outcome into the next action and its failure
/// class.
pub fn classify(ev: &HttpEvent) -> (r: (Decision, Option<FetchError>))
    ensures
        r.0 == classify_spec(*ev),
        r.1 == error_of_spec(*ev),
        r.1 is None <==> r.0 == Decision::Accept,
{
    match ev {
        HttpEvent::Failure { .. } => (
            Decision::BackoffRetry(1),
            Some(FetchError::TransportError),
        ),
        HttpEvent::Response { status, body, .. } => {
            if *status == 200 {
                if body.as_str().is_empty() {
                    (Decision::RefreshRetry, Some(FetchError::EmptyResponseError))
                } else {
                    (Decision::Accept, None)
                }
            } else if *status == 429 {
                (
                    Decision::RefreshBackoffRetry(1),
                    Some(FetchError::UpstreamStatusError(429)),
                )
            } else if *status == 403 {
                (Decision::BackoffRetry(2), Some(FetchError::UpstreamStatusError(403)))
            } else {
                (
                    Decision::BackoffRetry(1),
                    Some(FetchError::UpstreamStatusError(*status)),
                )
            }
        },
    }
}

/// What one refresh trigger did.
#[derive(Clone, Copy, PartialEq, Eq, Structural, Debug)]
pub enum RefreshResult {
    /// Another refresh was in flight; nothing was done.
    Skipped,
    /// The stored cookies still pass; nothing changed.
    Validated,
    /// A fresh set was generated and installed wholesale.
    Replaced,
    /// Generation failed; the stale cookies stay in use.
    Failed,
    /// No provider is configured; nothing to do.
    NoProvider,
}

/// The record of one logical fetch: how many attempts ran, how many refresh
/// triggers fired, and the status and failure class of the last attempt.
/// Ephemeral: reported to the caller, never persisted.
#[derive(Debug)]
pub struct FetchAttempt {
    pub attempts: usize,
    pub refreshes: usize,
    pub last_status: Option<u16>,
    pub last_error: Option<FetchError>,
}

/// The maximum number of attempts of one logical fetch.
pub const MAX_ATTEMPTS: usize = 3;

/// The fetch pipeline: orchestrates the cookie store, the proxy source and
/// the cookie provider to execute a single logical fetch with bounded
/// retries, single-flight refresh and status-driven backoff. Exclusive
/// access models the coarse per-attempt gate; a concurrent process keeps
/// the pipeline behind its runtime's lock and inherits the same contracts.
pub struct AsyncRequestHandler<C, P> {
    cookies_handler: Option<C>,
    proxy_handler: Option<P>,
    lock: RefreshGuard,
    headers: Vec<(String, String)>,
    cookies: CookieManager,
}

impl<C, P> AsyncRequestHandler<C, P> {
    /// The cookie store's names stay pairwise distinct.
    pub closed spec fn wf(&self) -> bool {
        self.cookies.wf()
    }

    /// Whether a refresh is in flight.
    pub closed spec fn guard_held(&self) -> bool {
        self.lock.is_held()
    }

    /// The current cookie state.
    pub closed spec fn cookie_view(&self) -> Seq<(Seq<char>, Seq<char>)> {
        self.cookies@
    }

    /// Whether a cookie provider is configured.
    pub closed spec fn has_provider(&self) -> bool {
        self.cookies_handler is Some
    }

    /// The fixed header pairs sent on every attempt.
    pub closed spec fn header_view(&self) -> Seq<(Seq<char>, Seq<char>)> {
        Seq::new(self.headers@.len(), |i: int| (self.headers@[i].0@, self.headers@[i].1@))
    }

    /// A pipeline with an empty cookie store, a free refresh guard, and the
    /// fixed browser header set.
    pub fn new(cookies_handler: Option<C>, proxy_handler: Option<P>) -> (r: AsyncRequestHandler<
        C,
        P,
    >)
        ensures
            r.wf(),
            !r.guard_held(),
            r.cookie_view() =~= Seq::<(Seq<char>, Seq<char>)>::empty(),
            r.has_provider() <==> cookies_handler is Some,
            r.header_view().len() == 2,
            r.header_view()[0] == ("Accept"@, accept_value()),
            r.header_view()[1] == ("User-Agent"@, user_agent_value()),
    {
        let headers = default_headers();
        let r = AsyncRequestHandler {
            cookies_handler,
            proxy_handler,
            lock: RefreshGuard::new(),
            headers,
            cookies: CookieManager::new(),
        };
        proof {
            assert(r.header_view()[0] == ("Accept"@, accept_value()));
            assert(r.header_view()[1] == ("User-Agent"@, user_agent_value()));
        }
        r
    }

    /// The outgoing request of one fetch attempt: the caller's URL, the
    /// fixed browser headers followed by a `Cookie` line holding exactly
    /// the recognized session pairs of the snapshot `cookies`, the drawn
    /// proxy, and the per-attempt timeout.
    pub fn build_fetch_request(&self, url: &str, cookies: &CookieSet, proxy: Option<String>) -> (r:
        HttpRequest)
        ensures
            r.url@ == url@,
            r.query@.len() == 0,
            r.headers@.len() == self.header_view().len() + 1,
            forall|i: int|
                0 <= i < self.header_view().len() ==> (#[trigger] r.headers@[i]).0@
                    == self.header_view()[i].0 && r.headers@[i].1@ == self.header_view()[i].1,
            r.headers@[self.header_view().len() as int].0@ == "Cookie"@,
            r.headers@[self.header_view().len() as int].1@ == header_of(cookies@),
            r.proxy == proxy,
            r.timeout_secs == 30,
    {
        let mut headers = crate::transport::clone_pairs(&self.headers);
        headers.push(("Cookie".to_owned(), cookies.cookie_header()));
        HttpRequest { url: url.to_owned(), query: Vec::new(), headers, proxy, timeout_secs: 30 }
    }

    /// One refresh trigger, single flight: if another refresh is in flight
    /// the trigger skips without side effects; otherwise the stored cookies
    /// are validated and, only when validation fails and generation
    /// succeeds, replaced wholesale. A provider failure is swallowed: the
    /// stale cookies stay and the surrounding fetch goes on.
    pub fn refresh<T: Transport>(&mut self, transport: &mut T) -> (r: RefreshResult) where
        C: BaseCookiesHandler<T>,

        requires
            old(self).wf(),
        ensures
            final(self).wf(),
            r == RefreshResult::Skipped <==> old(self).guard_held(),
            old(self).guard_held() ==> *final(self) == *old(self),
            !old(self).guard_held() ==> !final(self).guard_held(),
            r != RefreshResult::Replaced ==> final(self).cookie_view() == old(
                self,
            ).cookie_view(),
            r == RefreshResult::NoProvider <==> !old(self).guard_held() && !old(
                self,
            ).has_provider(),
            r == RefreshResult::Replaced ==> old(self).has_provider(),
            final(self).has_provider() == old(self).has_provider(),
            final(self).header_view() == old(self).header_view(),
    {
        if !self.lock.try_acquire() {
            return RefreshResult::Skipped;
        }
        let result: RefreshResult;
        match &self.cookies_handler {
            None => {
                result = RefreshResult::NoProvider;
            },
            Some(handler) => {
                let current = self.cookies.get_cookies();
                match handler.validate(&current, transport) {
                    Ok(_) => {
                        result = RefreshResult::Validated;
                    },
                    Err(_) => {
                        match handler.generate(transport) {
                            Ok(new_cookies) => {
                                self.cookies.set_cookies(new_cookies);
                                result = RefreshResult::Replaced;
                            },
                            Err(_) => {
                                result = RefreshResult::Failed;
                            },
                        }
                    },
                }
            },
        }
        self.lock.release();
        result
    }

    /// One logical fetch of `url`: up to three attempts, each with a fresh
    /// proxy draw and a cookie snapshot, classified by `classify_spec`.
    /// When the pool is empty or no proxy source is configured, the attempt
    /// deliberately goes out without a proxy rather than failing.
    /// Success returns a non-empty body from a `200` response; once the
    /// bound is reached the caller sees the single uniform
    /// `AttemptsExhaustedError`, whatever the root causes were. The record
    /// reports the attempt count, the refresh triggers fired, and the last
    /// attempt's status and failure class.
    pub fn make_request<T: Transport>(&mut self, transport: &mut T, url: &str) -> (r: (
        Result<String, FetchError>,
        FetchAttempt,
    )) where C: BaseCookiesHandler<T>, P: ProxyHandler
        requires
            old(self).wf(),
            !old(self).guard_held(),
        ensures
            final(self).wf(),
            !final(self).guard_held(),
            1 <= r.1.attempts <= MAX_ATTEMPTS,
            r.1.refreshes <= r.1.attempts,
            r.0 matches Ok(body) ==> body@.len() > 0 && r.1.last_status == Some(200u16)
                && r.1.last_error is None,
            r.0 matches Err(e) ==> e == FetchError::AttemptsExhaustedError && r.1.attempts
                == MAX_ATTEMPTS && r.1.last_error is Some,
            final(self).has_provider() == old(self).has_provider(),
    {
        let mut attempts: usize = 0;
        let mut refreshes: usize = 0;
        let mut last_status: Option<u16> = None;
        loop
            invariant
                attempts < MAX_ATTEMPTS,
                refreshes <= attempts,
                self.wf(),
                !self.guard_held(),
                self.has_provider() == old(self).has_provider(),
            decreases MAX_ATTEMPTS - attempts,
        {
            attempts = attempts + 1;
            let proxy = match &self.proxy_handler {
                Some(h) => h.get_proxy(),
                None => None,
            };
            let snapshot = self.cookies.get_cookies();
            let req = self.build_fetch_request(url, &snapshot, proxy);
            let ev = transport.execute(&req);
            last_status = match &ev {
                HttpEvent::Response { status, .. } => Some(*status),
                HttpEvent::Failure { .. } => None,
            };
            let (decision, last_error) = classify(&ev);
            match decision {
                Decision::Accept => {
                    let body = match ev {
                        HttpEvent::Response { body, .. } => body,
                        HttpEvent::Failure { .. } => vstd::pervasive::unreached(),
                    };
                    proof {
                        assert(last_status == Some(200u16));
                    }
                    return (
                        Ok(body),
                        FetchAttempt { attempts, refreshes, last_status, last_error },
                    );
                },
                Decision::RefreshRetry => {
                    refreshes = refreshes + 1;
                    self.refresh(transport);
                },
                Decision::RefreshBackoffRetry(secs) => {
                    refreshes = refreshes + 1;
                    self.refresh(transport);
                    transport.sleep_secs(secs);
                },
                Decision::BackoffRetry(secs) => {
                    transport.sleep_secs(secs);
                },
            }
            if attempts >= MAX_ATTEMPTS {
                return (
                    Err(FetchError::AttemptsExhaustedError),
                    FetchAttempt { attempts, refreshes, last_status, last_error },
                );
            }
        }
    }
}

} // verus!
