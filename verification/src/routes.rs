//! Which answer a request gets: a preflight answer, a proxied response, or
//! none (not found).

use vstd::prelude::*;
use warp::http::header::{HeaderMap, HeaderValue};
use crate::cors::{allow_credentials, allow_origin, set_header, with_header, with_header_names};
use crate::headers::{
    HeaderFields, ascii_text, has_room, header_fields, header_names, header_key, header_map_get, header_map_new,
    header_value_to_str, is_header_value, lookup_key, is_visible_ascii,
    lemma_known_header_names,
    lemma_room_after_insert,
};
use crate::path::{is_proxied_scheme, is_url_path, query_raw, spec_is_url_path, spec_url_path, url_path};
use crate::target_url::TargetUrl;
use crate::text::text_eq;
use vstd::utf8::encode_utf8;

verus! {

/// A request header as a text-valued filter reads it.
pub enum HeaderText {
    /// The header is absent.
    Missing,
    /// The header's first value is not visible ASCII.
    Invalid,
    /// The text of the header's first value.
    Text(String),
}

/// The first value of the header named `name`, if it is present.
pub open spec fn first_value(fields: HeaderFields, name: Seq<char>) -> Option<Seq<u8>> {
    match lookup_key(name) {
        Some(key) => if fields.contains_key(key) {
            Some(fields[key][0])
        } else {
            None
        },
        None => None,
    }
}

/// The text of the header named `name`: `None` when it is absent,
/// `Some(None)` when its first value is not visible ASCII.
pub open spec fn header_text_of(fields: HeaderFields, name: Seq<char>) -> Option<Option<Seq<char>>> {
    match first_value(fields, name) {
        Some(bytes) => if is_visible_ascii(bytes) {
            Some(Some(ascii_text(bytes)))
        } else {
            Some(None)
        },
        None => None,
    }
}

impl HeaderText {
    pub open spec fn view_as(self) -> Option<Option<Seq<char>>> {
        match self {
            HeaderText::Missing => None,
            HeaderText::Invalid => Some(None),
            HeaderText::Text(t) => Some(Some(t@)),
        }
    }
}

/// Reads the header named `name` as text (`warp::header::<String>`).
pub fn header_text(headers: &HeaderMap<HeaderValue>, name: &str) -> (text: HeaderText)
    ensures
        text.view_as() == header_text_of(header_fields(*headers), name@),
{
    match header_map_get(headers, name) {
        Some(value) => match header_value_to_str(value) {
            Some(t) => HeaderText::Text(t),
            None => HeaderText::Invalid,
        },
        None => HeaderText::Missing,
    }
}

/// Whether the request has the header `name` with a text value.
pub fn has_header(headers: &HeaderMap<HeaderValue>, name: &str) -> (present: bool)
    ensures
        present == (header_text_of(header_fields(*headers), name@) matches Some(Some(_))),
{
    match header_text(headers, name) {
        HeaderText::Text(_) => true,
        _ => false,
    }
}

/// The origin that answers allow: the request's `Origin`, or `*` when it has
/// none; `None` (the request is refused) when `Origin` is not visible ASCII.
pub open spec fn spec_cors_origin(fields: HeaderFields) -> Option<Seq<char>> {
    match header_text_of(fields, "origin"@) {
        None => Some("*"@),
        Some(Some(t)) => Some(t),
        Some(None) => None,
    }
}

/// The origin that answers allow: the request's `Origin`, or `*` when it has
/// none; `None` when `Origin` is not visible ASCII.
pub fn cors_origin(headers: &HeaderMap<HeaderValue>) -> (origin: Option<String>)
    ensures
        match origin {
            Some(o) => spec_cors_origin(header_fields(*headers)) == Some(o@),
            None => spec_cors_origin(header_fields(*headers)) is None,
        },
{
    proof {
        lemma_known_header_names();
    }
    match header_text(headers, "origin") {
        HeaderText::Missing => Some("*".to_owned()),
        HeaderText::Text(t) => Some(t),
        HeaderText::Invalid => None,
    }
}

/// What the proxy does with a request.
pub enum Route {
    /// Answer a CORS preflight, allowing the requested method and headers.
    Preflight { allow_methods: String, allow_headers: String },
    /// Send the request on to this URL.
    Proxy(TargetUrl),
    /// Refuse the request: its path names no `http` or `https` URL.
    NotFound,
}

/// A request is a preflight when it is an `OPTIONS` request for a URL path
/// that carries `Access-Control-Request-Method` and
/// `Access-Control-Request-Headers` as text.
pub open spec fn is_preflight(method: Seq<char>, path: Seq<char>, fields: HeaderFields) -> bool {
    &&& spec_is_url_path(path)
    &&& method == "OPTIONS"@
    &&& header_text_of(fields, "access-control-request-method"@) matches Some(Some(_))
    &&& header_text_of(fields, "access-control-request-headers"@) matches Some(Some(_))
}

/// The query text that the proxy appends: the raw query, or nothing.
pub open spec fn query_or_empty(query: Option<&str>) -> Seq<char> {
    match query {
        Some(q) => q@,
        None => Seq::empty(),
    }
}

/// Decides what to do with a request: the preflight route is tried first,
/// then the proxy route, which takes any method.
pub fn route(
    method: &str,
    path: &str,
    query: Option<&str>,
    headers: &HeaderMap<HeaderValue>,
) -> (r: Route)
    ensures
        match r {
            Route::Preflight { allow_methods, allow_headers } => {
                &&& is_preflight(method@, path@, header_fields(*headers))
                &&& header_text_of(header_fields(*headers), "access-control-request-method"@)
                    == Some(Some(allow_methods@))
                &&& header_text_of(header_fields(*headers), "access-control-request-headers"@)
                    == Some(Some(allow_headers@))
            },
            Route::Proxy(url) => {
                &&& !is_preflight(method@, path@, header_fields(*headers))
                &&& spec_url_path(path@, query_or_empty(query)) == Some(url@)
                &&& is_proxied_scheme(url@.1)
            },
            Route::NotFound => {
                &&& !is_preflight(method@, path@, header_fields(*headers))
                &&& spec_url_path(path@, query_or_empty(query)) is None
            },
        },
{
    proof {
        lemma_known_header_names();
    }
    if is_url_path(path) && text_eq(method, "OPTIONS") {
        let request_method = header_text(headers, "access-control-request-method");
        let request_headers = header_text(headers, "access-control-request-headers");
        match (request_method, request_headers) {
            (HeaderText::Text(m), HeaderText::Text(h)) => {
                return Route::Preflight { allow_methods: m, allow_headers: h };
            },
            _ => {},
        }
    }
    let raw = query_raw(query);
    match url_path(path, raw.as_str()) {
        Some(url) => Route::Proxy(url),
        None => Route::NotFound,
    }
}

/// The headers of a preflight answer: the requested method and headers are
/// allowed as asked.
pub open spec fn preflight_fields(allow_methods: Seq<char>, allow_headers: Seq<char>) -> HeaderFields {
    with_header(
        with_header(Map::empty(), "access-control-allow-methods"@, allow_methods),
        "access-control-allow-headers"@,
        allow_headers,
    )
}

/// The order of the names of a preflight answer: the allowed methods, then
/// the allowed headers (each only when its value is a valid header value).
pub open spec fn preflight_names(allow_methods: Seq<char>, allow_headers: Seq<char>) -> Seq<Seq<char>> {
    with_header_names(
        with_header_names(Seq::empty(), "access-control-allow-methods"@, allow_methods),
        "access-control-allow-headers"@,
        allow_headers,
    )
}

/// The headers of the answer to a preflight (`preflight_request`).
pub fn preflight_request(allow_methods: &str, allow_headers: &str) -> (headers: HeaderMap<HeaderValue>)
    ensures
        header_fields(headers) == preflight_fields(allow_methods@, allow_headers@),
        header_names(headers) == preflight_names(allow_methods@, allow_headers@),
{
    proof {
        lemma_known_header_names();
    }
    let mut headers = header_map_new();
    assert(has_room(header_fields(headers), 2));
    set_header(&mut headers, "access-control-allow-methods", allow_methods);
    proof {
        if is_header_value(encode_utf8(allow_methods@)) {
            lemma_room_after_insert(Map::empty(), "access-control-allow-methods"@, seq![encode_utf8(allow_methods@)], 1);
        }
    }
    set_header(&mut headers, "access-control-allow-headers", allow_headers);
    headers
}

/// The headers of the answer to a preflight as the client gets it: the
/// requested method and headers allowed, then `origin` and credentials.
pub open spec fn preflight_response_fields(
    allow_methods: Seq<char>,
    allow_headers: Seq<char>,
    origin: Seq<char>,
) -> HeaderFields {
    with_header(
        with_header(
            preflight_fields(allow_methods, allow_headers),
            "access-control-allow-origin"@,
            origin,
        ),
        "access-control-allow-credentials"@,
        "true"@,
    )
}

/// The order of the names of a preflight answer as the client gets it.
pub open spec fn preflight_response_names(
    allow_methods: Seq<char>,
    allow_headers: Seq<char>,
    origin: Seq<char>,
) -> Seq<Seq<char>> {
    with_header_names(
        with_header_names(
            preflight_names(allow_methods, allow_headers),
            "access-control-allow-origin"@,
            origin,
        ),
        "access-control-allow-credentials"@,
        "true"@,
    )
}

/// The headers of the answer to a preflight as the client gets it.
pub fn preflight_response(allow_methods: &str, allow_headers: &str, origin: &str) -> (headers:
    HeaderMap<HeaderValue>)
    ensures
        header_fields(headers) == preflight_response_fields(allow_methods@, allow_headers@, origin@),
        header_names(headers) == preflight_response_names(allow_methods@, allow_headers@, origin@),
{
    proof {
        lemma_known_header_names();
    }
    let mut headers = preflight_request(allow_methods, allow_headers);
    let ghost f1 = with_header(Map::empty(), "access-control-allow-methods"@, allow_methods@);
    proof {
        if is_header_value(encode_utf8(allow_methods@)) {
            lemma_room_after_insert(Map::empty(), "access-control-allow-methods"@, seq![encode_utf8(allow_methods@)], 3);
        }
        assert(has_room(f1, 3));
        if is_header_value(encode_utf8(allow_headers@)) {
            lemma_room_after_insert(f1, "access-control-allow-headers"@, seq![encode_utf8(allow_headers@)], 2);
        }
    }
    let ghost f2 = header_fields(headers);
    allow_origin(&mut headers, origin);
    proof {
        if is_header_value(encode_utf8(origin@)) {
            lemma_room_after_insert(f2, "access-control-allow-origin"@, seq![encode_utf8(origin@)], 1);
        }
    }
    allow_credentials(&mut headers);
    headers
}

} // verus!
