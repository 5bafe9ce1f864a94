use warp::http::header::{HeaderMap, HeaderValue};
use warp::http::Uri;

use warp_cors::cors::{allow_credentials, allow_origin, expose_all_headers};
use warp_cors::path::{is_url_path, query_raw, url_path};
use warp_cors::routes::has_header;

fn headers_of(pairs: &[(&'static str, &str)]) -> HeaderMap<HeaderValue> {
    let mut headers = HeaderMap::new();
    for (name, value) in pairs {
        headers.append(*name, HeaderValue::from_str(value).unwrap());
    }
    headers
}

/// The path and raw query that a request for `uri` carries.
fn path_and_query(uri: &str) -> (String, Option<String>) {
    let uri: Uri = uri.parse().unwrap();
    (uri.path().to_owned(), uri.query().map(|q| q.to_owned()))
}

fn url_path_of(uri: &str) -> Option<String> {
    let (path, query) = path_and_query(uri);
    let raw = query_raw(query.as_deref());
    url_path(&path, &raw).map(|u| u.as_str().to_owned())
}

#[test]
fn test_allow_credentials() {
    let mut headers = HeaderMap::new();
    allow_credentials(&mut headers);
    assert_eq!(headers.get("access-control-allow-credentials").unwrap(), "true");
}

#[test]
fn test_allow_origin() {
    let mut headers = HeaderMap::new();
    let origin = "localhost".to_owned();
    allow_origin(&mut headers, &origin);
    assert_eq!(headers.get("access-control-allow-origin").unwrap(), "localhost");
}

#[test]
fn test_expose_all_headers() {
    let mut headers = HeaderMap::new();
    expose_all_headers(&mut headers);
    assert!(headers.is_empty());

    let mut headers = headers_of(&[("origin", "localhost")]);
    expose_all_headers(&mut headers);
    assert_eq!(headers.get("access-control-expose-headers").unwrap(), "origin");

    let mut headers = headers_of(&[("origin", "localhost"), ("x-test-header", "test")]);
    expose_all_headers(&mut headers);
    assert_eq!(
        headers.get("access-control-expose-headers").unwrap(),
        "origin, x-test-header"
    );
}

#[test]
fn test_has_header() {
    let headers = headers_of(&[("origin", "test")]);
    assert!(has_header(&headers, "origin"));

    let headers = headers_of(&[("host", "localhost")]);
    assert!(!has_header(&headers, "origin"));

    let headers = HeaderMap::new();
    assert!(!has_header(&headers, "origin"));
}

#[test]
fn test_is_url_path() {
    let (path, _) = path_and_query("http://localhost/");
    assert!(!is_url_path(&path));

    let (path, _) = path_and_query("http://localhost/somepath/");
    assert!(!is_url_path(&path));

    let (path, _) = path_and_query("http://localhost/example.org/");
    assert!(!is_url_path(&path));

    let (path, _) = path_and_query("http://localhost/ftp://example.org/");
    assert!(!is_url_path(&path));
}

#[test]
fn test_url_path() {
    assert!(url_path_of("http://localhost/").is_none());
    assert!(url_path_of("http://localhost/somepath/").is_none());
    assert!(url_path_of("http://localhost/example.org/").is_none());

    assert_eq!(
        url_path_of("http://localhost/https://example/").unwrap(),
        url::Url::parse("https://example/").unwrap().as_str()
    );
    assert_eq!(
        url_path_of("http://localhost/https://example.org/").unwrap(),
        url::Url::parse("https://example.org/").unwrap().as_str()
    );
    assert_eq!(
        url_path_of("http://localhost/http://example.org/").unwrap(),
        url::Url::parse("http://example.org/").unwrap().as_str()
    );
    assert_eq!(
        url_path_of("http://localhost/http://example.org/?foo=bar").unwrap(),
        url::Url::parse("http://example.org/?foo=bar").unwrap().as_str()
    );

    assert!(url_path_of("http://localhost/ftp://example.org/").is_none());
}

#[test]
fn test_query_raw() {
    let (_, query) = path_and_query("/test");
    assert_eq!(query_raw(query.as_deref()), String::default());

    let (_, query) = path_and_query("/test?");
    assert_eq!(query_raw(query.as_deref()), String::default());

    let (_, query) = path_and_query("/test?foo");
    assert_eq!(query_raw(query.as_deref()), "foo");

    let (_, query) = path_and_query("/test?foo=bar");
    assert_eq!(query_raw(query.as_deref()), "foo=bar");

    let (_, query) = path_and_query("/test?foo=bar&baz=1");
    assert_eq!(query_raw(query.as_deref()), "foo=bar&baz=1");
}

#[test]
fn url_path_appends_query_pairs_encoded() {
    assert_eq!(
        url_path("/http://example.org/", "a=1&b=x y").unwrap().as_str(),
        "http://example.org/?a=1&b=x+y"
    );
}

#[test]
fn url_path_accepts_several_leading_slashes() {
    assert_eq!(
        url_path("///https://example.org/", "").unwrap().as_str(),
        "https://example.org/"
    );
    assert!(is_url_path("//http://example.org"));
}

#[test]
fn url_path_keeps_scheme_of_target() {
    let url = url_path("/HTTPS://Example.org", "").unwrap();
    assert_eq!(url.scheme(), "https");
    assert_eq!(url.as_str(), "https://example.org/");
}

#[test]
fn is_url_path_agrees_with_url_path_whatever_the_query() {
    for path in ["/", "/http://a.example/", "/https://b.example/x", "/ftp://c.example/", "/d.example"] {
        for query in ["", "a=b", "x"] {
            assert_eq!(is_url_path(path), url_path(path, query).is_some());
        }
    }
}
