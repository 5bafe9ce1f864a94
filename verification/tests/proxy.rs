use warp::http::header::{HeaderMap, HeaderValue};

use warp_cors::client::strip_set_cookie;
use warp_cors::config::Config;
use warp_cors::cors::{proxied_response_headers, set_header};
use warp_cors::error::{error_reply, Error};
use warp_cors::request::{append_or_insert_header, forward_request_headers, remove_connection_headers};
use warp_cors::text::{join, split_commas, text_eq, trim, trim_leading_slashes};

fn headers_of(pairs: &[(&'static str, &str)]) -> HeaderMap<HeaderValue> {
    let mut headers = HeaderMap::new();
    for (name, value) in pairs {
        headers.append(*name, HeaderValue::from_str(value).unwrap());
    }
    headers
}

#[test]
fn forwarded_request_drops_hop_by_hop_cookie_and_host() {
    let mut headers = headers_of(&[
        ("connection", "keep-alive, X-Hop , upgrade"),
        ("keep-alive", "timeout=5"),
        ("x-hop", "1"),
        ("upgrade", "websocket"),
        ("cookie", "a=b"),
        ("host", "localhost:3030"),
        ("accept", "text/html"),
        ("x-kept", "yes"),
    ]);
    forward_request_headers(&mut headers, "proxy.example").unwrap();
    assert_eq!(headers.len(), 3);
    assert_eq!(headers.get("accept").unwrap(), "text/html");
    assert_eq!(headers.get("x-kept").unwrap(), "yes");
    assert_eq!(headers.get("via").unwrap(), "2.0 proxy.example");
}

#[test]
fn forwarded_request_names_follow_the_removals() {
    let mut headers = headers_of(&[("x-a", "1"), ("connection", "x-b"), ("x-b", "2"), ("x-c", "3")]);
    forward_request_headers(&mut headers, "proxy.example").unwrap();
    let names: Vec<&str> = headers.keys().map(|k| k.as_str()).collect();
    assert_eq!(names, vec!["x-a", "x-c", "via"]);

    let mut headers = headers_of(&[("via", "1.1 a"), ("x-a", "1")]);
    assert!(append_or_insert_header(&mut headers, "via", "2.0 b").is_ok());
    let names: Vec<&str> = headers.keys().map(|k| k.as_str()).collect();
    assert_eq!(names, vec!["via", "x-a"]);
}

#[test]
fn forwarded_request_appends_to_via() {
    let mut headers = headers_of(&[("via", "1.1 first")]);
    forward_request_headers(&mut headers, "warp-cors").unwrap();
    assert_eq!(headers.get("via").unwrap(), "1.1 first, 2.0 warp-cors");
}

#[test]
fn via_records_each_hop() {
    let mut headers = HeaderMap::new();
    forward_request_headers(&mut headers, "one").unwrap();
    forward_request_headers(&mut headers, "two").unwrap();
    assert_eq!(headers.get("via").unwrap(), "2.0 one, 2.0 two");
}

#[test]
fn empty_via_is_replaced() {
    let mut headers = headers_of(&[("via", "")]);
    forward_request_headers(&mut headers, "h").unwrap();
    assert_eq!(headers.get("via").unwrap(), "2.0 h");
}

#[test]
fn non_ascii_via_is_replaced() {
    let mut headers = HeaderMap::new();
    headers.insert("via", HeaderValue::from_bytes(b"1.1 \xe9").unwrap());
    forward_request_headers(&mut headers, "h").unwrap();
    assert_eq!(headers.get("via").unwrap(), "2.0 h");
}

#[test]
fn only_first_via_value_is_extended() {
    let mut headers = headers_of(&[("via", "1.0 a"), ("via", "1.0 b")]);
    forward_request_headers(&mut headers, "c").unwrap();
    let values: Vec<&HeaderValue> = headers.get_all("via").iter().collect();
    assert_eq!(values, vec!["1.0 a, 2.0 c", "1.0 b"]);
}

#[test]
fn invalid_host_pseudonym_fails() {
    let mut headers = HeaderMap::new();
    let err = forward_request_headers(&mut headers, "bad\nhost").unwrap_err();
    assert!(matches!(err, Error::InvalidHeaderValue(_)));
    assert_eq!(err.message(), "failed to parse header value");
}

#[test]
fn connection_listing_via_replaces_it() {
    let mut headers = headers_of(&[("connection", "via"), ("via", "1.1 old")]);
    forward_request_headers(&mut headers, "new").unwrap();
    assert_eq!(headers.get("via").unwrap(), "2.0 new");
}

#[test]
fn connection_with_invalid_names_removes_only_valid_ones() {
    let mut headers = headers_of(&[("connection", "x-a, bad name,, "), ("x-a", "1"), ("x-b", "2")]);
    remove_connection_headers(&mut headers);
    assert_eq!(headers.len(), 1);
    assert_eq!(headers.get("x-b").unwrap(), "2");
}

#[test]
fn append_or_insert_header_inserts_when_absent() {
    let mut headers = HeaderMap::new();
    append_or_insert_header(&mut headers, "via", "1.1 x").unwrap();
    assert_eq!(headers.get("via").unwrap(), "1.1 x");
}

#[test]
fn append_or_insert_header_keeps_headers_on_failure() {
    let mut headers = headers_of(&[("via", "1.1 x")]);
    assert!(append_or_insert_header(&mut headers, "via", "\u{7f}").is_err());
    assert_eq!(headers.get("via").unwrap(), "1.1 x");
}

#[test]
fn set_cookie_is_stripped_from_responses() {
    let mut headers = headers_of(&[("set-cookie", "a=1"), ("set-cookie", "b=2"), ("content-type", "text/plain")]);
    strip_set_cookie(&mut headers);
    assert_eq!(headers.len(), 1);
    assert!(headers.get("set-cookie").is_none());
}

#[test]
fn stripping_set_cookie_keeps_the_order_of_the_rest() {
    let mut headers = headers_of(&[
        ("a-first", "1"),
        ("set-cookie", "x=1"),
        ("b-second", "2"),
        ("c-third", "3"),
        ("b-second", "4"),
    ]);
    strip_set_cookie(&mut headers);
    let names: Vec<&str> = headers.keys().map(|k| k.as_str()).collect();
    assert_eq!(names, vec!["a-first", "b-second", "c-third"]);
    let seconds: Vec<&HeaderValue> = headers.get_all("b-second").iter().collect();
    assert_eq!(seconds, vec!["2", "4"]);
}

#[test]
fn proxied_response_gets_cors_headers() {
    let mut headers = headers_of(&[
        ("content-type", "text/plain"),
        ("set-cookie", "a=1"),
        ("x-custom", "v"),
    ]);
    proxied_response_headers(&mut headers, "https://app.example");
    assert!(headers.get("set-cookie").is_none());
    assert_eq!(headers.get("content-type").unwrap(), "text/plain");
    assert_eq!(headers.get("access-control-allow-origin").unwrap(), "https://app.example");
    assert_eq!(headers.get("access-control-allow-credentials").unwrap(), "true");
    assert_eq!(headers.get("access-control-expose-headers").unwrap(), "content-type, x-custom");
}

#[test]
fn empty_proxied_response_exposes_nothing() {
    let mut headers = headers_of(&[("set-cookie", "a=1")]);
    proxied_response_headers(&mut headers, "*");
    assert_eq!(headers.len(), 2);
    assert!(headers.get("access-control-expose-headers").is_none());
    assert_eq!(headers.get("access-control-allow-origin").unwrap(), "*");
}

#[test]
fn set_header_replaces_all_values() {
    let mut headers = headers_of(&[("access-control-allow-origin", "a"), ("access-control-allow-origin", "b")]);
    set_header(&mut headers, "access-control-allow-origin", "c");
    let values: Vec<&HeaderValue> = headers.get_all("access-control-allow-origin").iter().collect();
    assert_eq!(values, vec!["c"]);
}

#[test]
fn error_reply_is_internal_server_error() {
    let reply = error_reply(&Error::Reqwest("error sending request".to_owned()));
    assert_eq!(reply.code, 500);
    assert_eq!(reply.message, "error sending request");
}

#[test]
fn config_defaults() {
    let config = Config::from_args(None, None).unwrap();
    assert_eq!(config.port, 3030);
    assert_eq!(config.host, "warp-cors");
}

#[test]
fn config_reads_port_and_host() {
    let config = Config::from_args(Some("8080"), Some("proxy.example")).unwrap();
    assert_eq!(config.port, 8080);
    assert_eq!(config.host, "proxy.example");
    assert_eq!(Config::from_args(Some("+80"), None).unwrap().port, 80);
    assert_eq!(Config::from_args(Some("65535"), None).unwrap().port, 65535);
}

#[test]
fn config_refuses_bad_port() {
    assert!(Config::from_args(Some("65536"), None).is_err());
    assert!(Config::from_args(Some("-1"), None).is_err());
    assert!(Config::from_args(Some("80a"), None).is_err());
    assert!(Config::from_args(Some(""), None).is_err());
    assert!(Config::from_args(Some("+"), None).is_err());
}

#[test]
fn config_refusal_carries_the_parse_error_of_the_port() {
    for port in ["abc", "70000", "", "-1"] {
        let error = Config::from_args(Some(port), None).err().unwrap();
        assert_eq!(error, port.parse::<u16>().unwrap_err());
    }
    let overflow = Config::from_args(Some("70000"), None).err().unwrap();
    assert_ne!(overflow, "abc".parse::<u16>().unwrap_err());
}

#[test]
fn text_helpers() {
    assert_eq!(trim_leading_slashes("///a/b/"), "a/b/");
    assert_eq!(trim_leading_slashes("a"), "a");
    assert_eq!(trim(" \t x y \n"), "x y");
    assert_eq!(trim("   "), "");
    assert_eq!(split_commas("a,,b c, "), vec!["a", "", "b c", " "]);
    assert_eq!(split_commas(""), vec![""]);
    assert_eq!(join(&vec!["a".to_owned(), "b".to_owned()], ", "), "a, b");
    assert_eq!(join(&vec![], ", "), "");
    assert!(text_eq("OPTIONS", "OPTIONS"));
    assert!(!text_eq("OPTIONS", "options"));
}

#[test]
fn exposed_names_read_back_as_a_list() {
    let names = vec!["content-type".to_owned(), "x-a".to_owned(), "etag".to_owned()];
    let joined = join(&names, ", ");
    let read: Vec<&str> = split_commas(&joined).into_iter().map(trim).collect();
    assert_eq!(read, vec!["content-type", "x-a", "etag"]);
}

#[test]
fn dropping_connection_headers_twice_is_dropping_them_once() {
    let mut once = headers_of(&[("connection", "x-a"), ("x-a", "1"), ("x-b", "2")]);
    remove_connection_headers(&mut once);
    let mut twice = once.clone();
    remove_connection_headers(&mut twice);
    assert_eq!(once, twice);
    assert_eq!(twice.len(), 1);
}
