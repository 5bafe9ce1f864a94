use warp::http::header::{HeaderMap, HeaderValue};
use warp::http::Uri;

use warp_cors::routes::{cors_origin, has_header, header_text, preflight_request, preflight_response, route, HeaderText, Route};

struct TestRequest {
    method: &'static str,
    uri: &'static str,
    headers: HeaderMap<HeaderValue>,
}

impl TestRequest {
    fn new() -> Self {
        TestRequest { method: "GET", uri: "/", headers: HeaderMap::new() }
    }
    fn method(mut self, method: &'static str) -> Self {
        self.method = method;
        self
    }
    fn path(mut self, uri: &'static str) -> Self {
        self.uri = uri;
        self
    }
    fn header(mut self, name: &'static str, value: &str) -> Self {
        self.headers.append(name, HeaderValue::from_str(value).unwrap());
        self
    }
    fn route(&self) -> Route {
        let uri: Uri = self.uri.parse().unwrap();
        route(self.method, uri.path(), uri.query(), &self.headers)
    }
    /// Whether the proxy answers the request (with a preflight answer or a
    /// proxied response) rather than refusing it.
    fn matches_routes(&self) -> bool {
        !matches!(self.route(), Route::NotFound) && cors_origin(&self.headers).is_some()
    }
    fn matches_preflight(&self) -> bool {
        matches!(self.route(), Route::Preflight { .. })
    }
}

#[test]
fn test_routes() {
    let request = TestRequest::new();
    assert!(!request.matches_routes());

    let request = TestRequest::new()
        .method("OPTIONS")
        .header("access-control-request-method", "GET")
        .header("access-control-request-headers", "Origin")
        .header("origin", "localhost")
        .path("http://localhost/http://example.org");
    assert!(request.matches_routes());

    let request = TestRequest::new()
        .method("OPTIONS")
        .header("access-control-request-method", "GET")
        .path("http://localhost/http://example.org");
    assert!(request.matches_routes());

    let request = TestRequest::new()
        .method("GET")
        .header("origin", "localhost")
        .path("http://localhost/http://example.org");
    assert!(request.matches_routes());

    let request = TestRequest::new()
        .method("GET")
        .path("http://localhost/http://example.org");
    assert!(request.matches_routes());
}

#[test]
fn test_preflight() {
    let request = TestRequest::new();
    assert!(!request.matches_preflight());

    let request = TestRequest::new()
        .method("OPTIONS")
        .path("http://localhost/http://example.org");
    assert!(!request.matches_preflight());

    let request = TestRequest::new()
        .method("OPTIONS")
        .header("access-control-request-method", "GET")
        .path("http://localhost/http://example.org");
    assert!(!request.matches_preflight());

    let request = TestRequest::new()
        .method("OPTIONS")
        .header("access-control-request-method", "GET")
        .header("origin", "localhost")
        .path("http://localhost/http://example.org");
    assert!(!request.matches_preflight());

    let request = TestRequest::new()
        .method("GET")
        .header("access-control-request-method", "GET")
        .header("access-control-request-headers", "Origin")
        .header("origin", "localhost")
        .path("http://localhost/http://example.org");
    assert!(!request.matches_preflight());

    let request = TestRequest::new()
        .method("OPTIONS")
        .header("access-control-request-method", "GET")
        .header("access-control-request-headers", "Origin")
        .path("http://localhost/http://example.org");
    assert!(request.matches_preflight());

    let request = TestRequest::new()
        .method("OPTIONS")
        .header("access-control-request-method", "GET")
        .header("access-control-request-headers", "Origin")
        .header("origin", "localhost")
        .path("http://localhost/http://example.org");
    assert!(request.matches_preflight());
}

#[test]
fn preflight_route_carries_requested_method_and_headers() {
    let request = TestRequest::new()
        .method("OPTIONS")
        .header("access-control-request-method", "PUT")
        .header("access-control-request-headers", "X-One, X-Two")
        .path("http://localhost/https://example.org/api");
    match request.route() {
        Route::Preflight { allow_methods, allow_headers } => {
            assert_eq!(allow_methods, "PUT");
            assert_eq!(allow_headers, "X-One, X-Two");
        }
        _ => panic!("expected a preflight"),
    }
}

#[test]
fn options_for_non_url_path_is_not_found() {
    let request = TestRequest::new()
        .method("OPTIONS")
        .header("access-control-request-method", "GET")
        .header("access-control-request-headers", "Origin")
        .path("http://localhost/example.org");
    assert!(matches!(request.route(), Route::NotFound));
}

#[test]
fn proxy_route_names_target_with_query() {
    let request = TestRequest::new()
        .method("POST")
        .path("http://localhost/http://example.org/a?x=1");
    match request.route() {
        Route::Proxy(url) => assert_eq!(url.as_str(), "http://example.org/a?x=1"),
        _ => panic!("expected the proxy route"),
    }
}

#[test]
fn preflight_with_non_ascii_header_is_proxied_instead() {
    let mut request = TestRequest::new()
        .method("OPTIONS")
        .header("access-control-request-method", "GET")
        .path("http://localhost/http://example.org");
    request.headers.append(
        "access-control-request-headers",
        HeaderValue::from_bytes(b"caf\xc3\xa9").unwrap(),
    );
    assert!(matches!(request.route(), Route::Proxy(_)));
}

#[test]
fn origin_defaults_to_any() {
    let headers = HeaderMap::new();
    assert_eq!(cors_origin(&headers).unwrap(), "*");
}

#[test]
fn origin_is_echoed() {
    let mut headers = HeaderMap::new();
    headers.insert("origin", HeaderValue::from_static("https://app.example"));
    assert_eq!(cors_origin(&headers).unwrap(), "https://app.example");
}

#[test]
fn non_ascii_origin_is_refused() {
    let mut headers = HeaderMap::new();
    headers.insert("origin", HeaderValue::from_bytes(b"http://\xffx").unwrap());
    assert!(cors_origin(&headers).is_none());
}

#[test]
fn header_text_reads_first_value_case_insensitively() {
    let mut headers = HeaderMap::new();
    headers.append("x-a", HeaderValue::from_static("one"));
    headers.append("x-a", HeaderValue::from_static("two"));
    match header_text(&headers, "X-A") {
        HeaderText::Text(t) => assert_eq!(t, "one"),
        _ => panic!("expected text"),
    }
    assert!(matches!(header_text(&headers, "x-b"), HeaderText::Missing));
    assert!(matches!(header_text(&headers, "bad name"), HeaderText::Missing));
}

#[test]
fn preflight_answer_allows_what_was_asked() {
    let headers = preflight_request("GET", "Origin");
    assert_eq!(headers.len(), 2);
    assert_eq!(headers.get("access-control-allow-methods").unwrap(), "GET");
    assert_eq!(headers.get("access-control-allow-headers").unwrap(), "Origin");

    let headers = preflight_response("DELETE", "X-Token", "https://app.example");
    assert_eq!(headers.len(), 4);
    assert_eq!(headers.get("access-control-allow-methods").unwrap(), "DELETE");
    assert_eq!(headers.get("access-control-allow-headers").unwrap(), "X-Token");
    assert_eq!(headers.get("access-control-allow-origin").unwrap(), "https://app.example");
    assert_eq!(headers.get("access-control-allow-credentials").unwrap(), "true");
    let names: Vec<&str> = headers.keys().map(|k| k.as_str()).collect();
    assert_eq!(
        names,
        vec![
            "access-control-allow-methods",
            "access-control-allow-headers",
            "access-control-allow-origin",
            "access-control-allow-credentials",
        ]
    );
}

#[test]
fn preflight_answer_leaves_out_invalid_value() {
    let headers = preflight_request("GET\n", "Origin");
    assert!(headers.get("access-control-allow-methods").is_none());
    assert_eq!(headers.get("access-control-allow-headers").unwrap(), "Origin");
}

#[test]
fn readme_example_requests() {
    let get = |uri: &'static str| TestRequest::new().path(uri).route();
    assert!(matches!(get("http://localhost:3030/"), Route::NotFound));
    match get("http://localhost:3030/http://example.org") {
        Route::Proxy(url) => assert_eq!(url.as_str(), "http://example.org/"),
        _ => panic!("expected the proxy route"),
    }
    match get("http://localhost:3030/https://example.org") {
        Route::Proxy(url) => assert_eq!(url.as_str(), "https://example.org/"),
        _ => panic!("expected the proxy route"),
    }
    assert!(matches!(get("http://localhost:3030/example.org"), Route::NotFound));
    assert!(matches!(get("http://localhost:3030/ftp://example.org"), Route::NotFound));
}

#[test]
fn long_name_with_stray_characters_is_looked_up_byte_by_byte() {
    const LONG: &str = "x-a-name-that-runs-past-sixty-four-bytes-and-holds-a-space here-too";
    assert!(LONG.len() > 64);
    let mut headers = HeaderMap::new();
    headers.insert(LONG, HeaderValue::from_static("v"));
    assert!(has_header(&headers, LONG));
    assert!(has_header(&headers, "x-a-name-that-runs-past-sixty-four-bytes-and-holds-a-space\there-too"));
    assert!(!has_header(&headers, "x-a-name-that-runs-past-sixty-four-bytes-and-holds-a-space-here-too"));
    assert!(!has_header(&headers, "bad name"));
}
