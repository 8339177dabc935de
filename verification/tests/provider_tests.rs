use proxy_fetch::cookies::CookieSet;
use proxy_fetch::cookies_handler::{
    interpret_generate_response, interpret_validate_response, BaseCookiesHandler,
    ZenrowsCookiesHandler,
};
use proxy_fetch::proxy_handler::BrightDataRandomProxyHandler;
use proxy_fetch::transport::{HttpEvent, HttpRequest, Transport};

type Handler = ZenrowsCookiesHandler<BrightDataRandomProxyHandler>;

/// A transport that replays one scripted outcome and records the request.
struct OneShotTransport {
    event: Option<HttpEvent>,
    url: Option<String>,
    query: Vec<(String, String)>,
    headers: Vec<(String, String)>,
}

impl OneShotTransport {
    fn new(event: HttpEvent) -> OneShotTransport {
        OneShotTransport { event: Some(event), url: None, query: Vec::new(), headers: Vec::new() }
    }
}

impl Transport for OneShotTransport {
    fn execute(&mut self, req: &HttpRequest) -> HttpEvent {
        self.url = Some(req.url.clone());
        self.query = req.query.clone();
        self.headers = req.headers.clone();
        self.event.take().unwrap()
    }

    fn sleep_secs(&mut self, _secs: u64) {}
}

#[test]
fn generate_parses_the_cookie_header() {
    let handler: Handler =
        ZenrowsCookiesHandler::new("https://target.test/".to_string(), "key".to_string(), false, None);
    let mut transport = OneShotTransport::new(HttpEvent::Response {
        status: 200,
        body: String::new(),
        cookie_header: Some("KP_UIDz=aa; KP_UIDz-ssn=bb; extra=cc".to_string()),
    });
    let set = handler.generate(&mut transport).unwrap();
    assert_eq!(set.len(), 3);
    assert_eq!(set.get("KP_UIDz").unwrap().as_str(), "aa");
    assert_eq!(set.get("KP_UIDz-ssn").unwrap().as_str(), "bb");
    assert_eq!(set.get("extra").unwrap().as_str(), "cc");
    // the service was called with the target, the key and the render flag
    assert_eq!(transport.url.unwrap(), "https://api.zenrows.com/v1/");
    assert_eq!(transport.query[0].0, "url");
    assert_eq!(transport.query[0].1, "https://target.test/");
    assert_eq!(transport.query[1].0, "apikey");
    assert_eq!(transport.query[1].1, "key");
    assert_eq!(transport.query[2].0, "js_render");
    assert_eq!(transport.query[2].1, "true");
    assert_eq!(transport.query.len(), 3);
}

#[test]
fn generate_sends_premium_proxy_flag_when_asked() {
    let handler: Handler =
        ZenrowsCookiesHandler::new("https://target.test/".to_string(), "key".to_string(), true, None);
    let mut transport = OneShotTransport::new(HttpEvent::Response {
        status: 200,
        body: String::new(),
        cookie_header: Some("a=b".to_string()),
    });
    handler.generate(&mut transport).unwrap();
    assert_eq!(transport.query.len(), 4);
    assert_eq!(transport.query[3].0, "premium_proxy");
    assert_eq!(transport.query[3].1, "true");
}

#[test]
fn generate_fails_without_the_cookie_header() {
    let err = interpret_generate_response(HttpEvent::Response {
        status: 200,
        body: String::new(),
        cookie_header: None,
    })
    .unwrap_err();
    assert_eq!(err.message, "Missing Zr-Cookies header");
}

#[test]
fn generate_fails_on_error_status() {
    let err = interpret_generate_response(HttpEvent::Response {
        status: 502,
        body: String::new(),
        cookie_header: Some("a=b".to_string()),
    })
    .unwrap_err();
    assert_eq!(err.message, "HTTP error status");
}

#[test]
fn generate_fails_on_transport_failure() {
    let err = interpret_generate_response(HttpEvent::Failure {
        message: "timed out".to_string(),
    })
    .unwrap_err();
    assert_eq!(err.message, "timed out");
}

#[test]
fn validate_accepts_success_with_body() {
    assert!(interpret_validate_response(HttpEvent::Response {
        status: 200,
        body: "page".to_string(),
        cookie_header: None,
    })
    .is_ok());
}

#[test]
fn validate_rejects_empty_body() {
    let err = interpret_validate_response(HttpEvent::Response {
        status: 200,
        body: String::new(),
        cookie_header: None,
    })
    .unwrap_err();
    assert_eq!(err.message, "Empty response body");
}

#[test]
fn validate_rejects_error_status() {
    let err = interpret_validate_response(HttpEvent::Response {
        status: 404,
        body: "missing".to_string(),
        cookie_header: None,
    })
    .unwrap_err();
    assert_eq!(err.message, "Request failed with status");
}

#[test]
fn build_generate_request_forwards_credentials_verbatim() {
    let handler: Handler = ZenrowsCookiesHandler::new(
        "https://target.test/page?x=1".to_string(),
        "k-123".to_string(),
        true,
        None,
    );
    let req = handler.build_generate_request();
    assert_eq!(req.url, "https://api.zenrows.com/v1/");
    assert!(req.headers.is_empty());
    assert!(req.proxy.is_none());
    assert_eq!(req.timeout_secs, 120);
    assert_eq!(req.query.len(), 4);
    assert_eq!(req.query[0], ("url".to_string(), "https://target.test/page?x=1".to_string()));
    assert_eq!(req.query[1], ("apikey".to_string(), "k-123".to_string()));
    assert_eq!(req.query[2], ("js_render".to_string(), "true".to_string()));
    assert_eq!(req.query[3], ("premium_proxy".to_string(), "true".to_string()));
}

#[test]
fn build_validate_request_carries_headers_cookies_and_proxy() {
    let handler: Handler =
        ZenrowsCookiesHandler::new("https://target.test/".to_string(), "key".to_string(), false, None);
    let mut cookies = CookieSet::new();
    cookies.insert("KP_UIDz-ssn".to_string(), "s".to_string());
    cookies.insert("ignored".to_string(), "x".to_string());
    let req = handler.build_validate_request(&cookies, Some("http://proxy.test:1".to_string()));
    assert_eq!(req.url, "https://target.test/");
    assert!(req.query.is_empty());
    assert_eq!(req.headers.len(), 3);
    assert_eq!(req.headers[0].0, "Accept");
    assert_eq!(req.headers[1].0, "User-Agent");
    assert_eq!(req.headers[2], ("Cookie".to_string(), "KP_UIDz-ssn=s".to_string()));
    assert_eq!(req.proxy, Some("http://proxy.test:1".to_string()));
    assert_eq!(req.timeout_secs, 30);
}

#[test]
fn validate_probes_with_only_recognized_cookies() {
    let handler: Handler =
        ZenrowsCookiesHandler::new("https://target.test/".to_string(), "key".to_string(), false, None);
    let mut cookies = CookieSet::new();
    cookies.insert("KP_UIDz".to_string(), "a".to_string());
    cookies.insert("hidden".to_string(), "b".to_string());
    let mut transport = OneShotTransport::new(HttpEvent::Response {
        status: 200,
        body: "alive".to_string(),
        cookie_header: None,
    });
    assert!(handler.validate(&cookies, &mut transport).is_ok());
    assert_eq!(transport.url.unwrap(), "https://target.test/");
    // Accept, User-Agent, Cookie
    assert_eq!(transport.headers.len(), 3);
    assert_eq!(transport.headers[2].0, "Cookie");
    assert_eq!(transport.headers[2].1, "KP_UIDz=a");
}
