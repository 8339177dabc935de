//! The cookie provider: validation of an existing session-cookie set
//! against the target and generation of a fresh set through the third-party
//! bypass service, whose response header carries `name=value` pairs
//! separated by `;`.

use vstd::prelude::*;
use vstd::string::*;

use crate::cookies::{header_of, insert_entry, CookieSet};
use crate::proxy_handler::ProxyHandler;
use crate::transport::{
    accept_value, default_headers, is_success_status, status_is_success, user_agent_value,
    HttpEvent, HttpRequest, Transport,
};
use crate::utils::{
    find_char, first_index_of, lemma_first_index_of_none, lemma_first_index_of_unique, split_on,
    split_str, trim, trim_spec,
};

verus! {

/// A failure of the cookie provider: a transport error, a non-success
/// status, or a malformed or missing response.
#[derive(Debug)]
pub struct CookieException {
    pub message: String,
}

/// The entries contributed by the items `items` of a cookie header, later
/// items replacing earlier ones of the same name; an item without `=` is
/// ignored, and name and value are stripped of surrounding whitespace.
pub open spec fn parse_items(items: Seq<Seq<char>>) -> Seq<(Seq<char>, Seq<char>)>
    decreases items.len(),
{
    if items.len() == 0 {
        Seq::empty()
    } else {
        let acc = parse_items(items.drop_last());
        let item = items.last();
        let i = first_index_of(item, '=');
        if i == -1 {
            acc
        } else {
            insert_entry(
                acc,
                trim_spec(item.take(i)),
                trim_spec(item.subrange(i + 1, item.len() as int)),
            )
        }
    }
}

/// The cookie set described by a provider header: its `;`-separated items,
/// parsed in order.
pub open spec fn parse_cookies_spec(s: Seq<char>) -> Seq<(Seq<char>, Seq<char>)> {
    parse_items(split_on(s, ';'))
}

/// The capability consumed by the fetch pipeline: probe an existing cookie
/// set against the target, or obtain a fresh one. Both run against the
/// network through the given transport, so nothing is promised of when they
/// succeed; a generated set always has distinct names.
pub trait BaseCookiesHandler<T: Transport>: Sized {
    /// Generate a fresh cookie set for the target.
    fn generate(&self, transport: &mut T) -> (r: Result<CookieSet, CookieException>)
        ensures
            r matches Ok(c) ==> c.wf(),
    ;

    /// Check that `cookies` still pass the target's challenge.
    fn validate(&self, cookies: &CookieSet, transport: &mut T) -> Result<(), CookieException>;
}

/// A provider backed by the third-party bypass service: `generate` asks the
/// service for the target's cookies; `validate` probes the target itself,
/// optionally through a proxy of its own.
pub struct ZenrowsCookiesHandler<P: ProxyHandler> {
    cookie_url: String,
    api_key: String,
    premium_proxy: bool,
    proxy_handler: Option<P>,
}

impl<P: ProxyHandler> ZenrowsCookiesHandler<P> {
    /// Which target URL the provider serves.
    pub closed spec fn target(&self) -> Seq<char> {
        self.cookie_url@
    }

    /// The provider's API key.
    pub closed spec fn key(&self) -> Seq<char> {
        self.api_key@
    }

    /// Whether the premium-proxy flag is requested from the service.
    pub closed spec fn premium(&self) -> bool {
        self.premium_proxy
    }

    /// The proxy source the probe draws from, exactly as passed at
    /// construction.
    pub closed spec fn proxy_source(&self) -> Option<P> {
        self.proxy_handler
    }

    pub fn new(
        cookie_url: String,
        api_key: String,
        premium_proxy: bool,
        proxy_handler: Option<P>,
    ) -> (r: ZenrowsCookiesHandler<P>)
        ensures
            r.target() == cookie_url@,
            r.key() == api_key@,
            r.premium() == premium_proxy,
            r.proxy_source() == proxy_handler,
    {
        ZenrowsCookiesHandler { cookie_url, api_key, premium_proxy, proxy_handler }
    }

    /// The request `generate` sends to the bypass service: the service URL
    /// with the target, the API key and the rendering flags forwarded
    /// verbatim as query parameters, no headers, no proxy, and the long
    /// per-call timeout.
    pub fn build_generate_request(&self) -> (r: HttpRequest)
        ensures
            r.url@ == "https://api.zenrows.com/v1/"@,
            r.headers@.len() == 0,
            r.proxy is None,
            r.timeout_secs == 120,
            self.premium() ==> r.query@.len() == 4,
            !self.premium() ==> r.query@.len() == 3,
            r.query@[0].0@ == "url"@ && r.query@[0].1@ == self.target(),
            r.query@[1].0@ == "apikey"@ && r.query@[1].1@ == self.key(),
            r.query@[2].0@ == "js_render"@ && r.query@[2].1@ == "true"@,
            self.premium() ==> r.query@[3].0@ == "premium_proxy"@ && r.query@[3].1@ == "true"@,
    {
        let mut query: Vec<(String, String)> = Vec::new();
        query.push(("url".to_owned(), self.cookie_url.clone()));
        query.push(("apikey".to_owned(), self.api_key.clone()));
        query.push(("js_render".to_owned(), "true".to_owned()));
        if self.premium_proxy {
            query.push(("premium_proxy".to_owned(), "true".to_owned()));
        }
        HttpRequest {
            url: "https://api.zenrows.com/v1/".to_owned(),
            query,
            headers: Vec::new(),
            proxy: None,
            timeout_secs: 120,
        }
    }

    /// The probe request `validate` sends: the provider's target URL, the
    /// fixed browser headers followed by a `Cookie` line holding exactly
    /// the recognized session pairs of `cookies`, routed through the given
    /// proxy, with the per-attempt timeout.
    pub fn build_validate_request(&self, cookies: &CookieSet, proxy: Option<String>) -> (r:
        HttpRequest)
        ensures
            r.url@ == self.target(),
            r.query@.len() == 0,
            r.headers@.len() == 3,
            r.headers@[0].0@ == "Accept"@ && r.headers@[0].1@ == accept_value(),
            r.headers@[1].0@ == "User-Agent"@ && r.headers@[1].1@ == user_agent_value(),
            r.headers@[2].0@ == "Cookie"@ && r.headers@[2].1@ == header_of(cookies@),
            r.proxy == proxy,
            r.timeout_secs == 30,
    {
        let mut headers = default_headers();
        headers.push(("Cookie".to_owned(), cookies.cookie_header()));
        HttpRequest { url: self.cookie_url.clone(), query: Vec::new(), headers, proxy, timeout_secs: 30 }
    }

    /// Parse a `;`-separated list of `name=value` pairs, each pair
    /// optionally surrounded by whitespace, into a cookie set; a later pair
    /// replaces an earlier one of the same name.
    pub fn parse_cookies(cookie_string: &str) -> (r: CookieSet)
        ensures
            r@ == parse_cookies_spec(cookie_string@),
            r.wf(),
    {
        parse_cookie_string(cookie_string)
    }
}

/// Parse a `;`-separated list of `name=value` pairs into a cookie set.
fn parse_cookie_string(cookie_string: &str) -> (r: CookieSet)
    ensures
        r@ == parse_cookies_spec(cookie_string@),
        r.wf(),
{
    let items = split_str(cookie_string, ';');
    let ghost views = items@.map_values(|p: String| p@);
    let mut set = CookieSet::new();
    let n = items.len();
    let mut k: usize = 0;
    proof {
        assert(views.take(0) =~= Seq::<Seq<char>>::empty());
    }
    while k < n
        invariant
            0 <= k <= n,
            n == items@.len(),
            views == items@.map_values(|p: String| p@),
            set@ == parse_items(views.take(k as int)),
            set.wf(),
        decreases n - k,
    {
        let item: &String = &items[k];
        let m: usize = item.as_str().unicode_len();
        proof {
            assert(views.take(k + 1).drop_last() =~= views.take(k as int));
            assert(views.take(k + 1).last() == item@);
        }
        match find_char(item.as_str(), 0, '=') {
            Some(i) => {
                proof {
                    lemma_first_index_of_unique(item@, '=', i as int);
                }
                let name = trim(item.as_str().substring_char(0, i)).to_owned();
                let value = trim(item.as_str().substring_char(i + 1, m)).to_owned();
                set.insert(name, value);
            },
            None => {
                proof {
                    lemma_first_index_of_none(item@, '=');
                }
            },
        }
        k = k + 1;
    }
    proof {
        assert(views.take(n as int) =~= views);
    }
    set
}

/// What `generate` concludes from the service's response: an error on
/// transport failure, non-success status or missing cookie header, and
/// otherwise the parsed cookie set.
pub fn interpret_generate_response(ev: HttpEvent) -> (r: Result<
    CookieSet,
    CookieException,
>)
    ensures
        match ev {
            HttpEvent::Failure { .. } => r is Err,
            HttpEvent::Response { status, body: _, cookie_header } => {
                if !is_success_status(status) {
                    r is Err
                } else {
                    match cookie_header {
                        None => r is Err,
                        Some(h) => (r matches Ok(c) && c@ == parse_cookies_spec(h@) && c.wf()),
                    }
                }
            },
        },
{
    match ev {
        HttpEvent::Failure { message } => Err(CookieException { message }),
        HttpEvent::Response { status, body: _, cookie_header } => {
            if !status_is_success(status) {
                Err(CookieException { message: "HTTP error status".to_owned() })
            } else {
                match cookie_header {
                    None => Err(
                        CookieException { message: "Missing Zr-Cookies header".to_owned() },
                    ),
                    Some(h) => Ok(parse_cookie_string(h.as_str())),
                }
            }
        },
    }
}

/// What `validate` concludes from the probe's outcome: success exactly on a
/// success status with a non-empty body.
pub fn interpret_validate_response(ev: HttpEvent) -> (r: Result<(), CookieException>)
    ensures
        match ev {
            HttpEvent::Failure { .. } => r is Err,
            HttpEvent::Response { status, body, cookie_header: _ } => {
                if is_success_status(status) && body@.len() > 0 {
                    r is Ok
                } else {
                    r is Err
                }
            },
        },
{
    match ev {
        HttpEvent::Failure { message } => Err(CookieException { message }),
        HttpEvent::Response { status, body, cookie_header: _ } => {
            if status_is_success(status) {
                if body.as_str().is_empty() {
                    Err(CookieException { message: "Empty response body".to_owned() })
                } else {
                    Ok(())
                }
            } else {
                Err(CookieException { message: "Request failed with status".to_owned() })
            }
        },
    }
}

impl<P: ProxyHandler, T: Transport> BaseCookiesHandler<T> for ZenrowsCookiesHandler<P> {
    /// Ask the bypass service for the target's cookies: URL, API key and
    /// rendering flags as query parameters, a long per-call timeout, and the
    /// cookie set read from the service's dedicated response header.
    fn generate(&self, transport: &mut T) -> (r: Result<CookieSet, CookieException>) {
        let req = self.build_generate_request();
        let ev = transport.execute(&req);
        interpret_generate_response(ev)
    }

    /// Probe the target with the recognized session cookies and the fixed
    /// browser headers, routed through a proxy of the provider's own when
    /// one is available; succeed only on a success status with a non-empty
    /// body.
    fn validate(&self, cookies: &CookieSet, transport: &mut T) -> Result<(), CookieException> {
        let proxy = match &self.proxy_handler {
            Some(h) => h.get_proxy(),
            None => None,
        };
        let req = self.build_validate_request(cookies, proxy);
        let ev = transport.execute(&req);
        interpret_validate_response(ev)
    }
}

} // verus!
