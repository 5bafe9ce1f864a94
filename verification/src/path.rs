//! The request path names the URL to proxy: `/` followed by an absolute
//! `http` or `https` URL; the request's query is carried over to it.

use vstd::prelude::*;
use crate::target_url::{TargetUrl, parse_url, append_query_pairs, parsed_url, url_with_query_pairs};
use crate::text::{trim_leading_slashes, trim_start_char, text_eq};

verus! {

/// The schemes that the proxy forwards to.
pub open spec fn is_proxied_scheme(scheme: Seq<char>) -> bool {
    scheme == "http"@ || scheme == "https"@
}

/// The URL that a request path names, before the query is added.
pub open spec fn path_url(path: Seq<char>) -> Option<(Seq<char>, Seq<char>)> {
    parsed_url(trim_start_char(path, '/'))
}

/// Whether a request path names a URL to proxy.
pub open spec fn spec_is_url_path(path: Seq<char>) -> bool {
    match path_url(path) {
        Some(u) => is_proxied_scheme(u.1),
        None => false,
    }
}

/// The URL to proxy for a request path and raw query, if the path names
/// one: the pairs of a non-empty query are appended to its query.
pub open spec fn spec_url_path(path: Seq<char>, query: Seq<char>) -> Option<(Seq<char>, Seq<char>)> {
    match path_url(path) {
        Some(u) => if is_proxied_scheme(u.1) {
            Some(
                if query.len() == 0 {
                    u
                } else {
                    url_with_query_pairs(u, query)
                },
            )
        } else {
            None
        },
        None => None,
    }
}

/// Whether `scheme` is one that the proxy forwards to.
pub fn is_proxied_scheme_text(scheme: &str) -> (ok: bool)
    ensures
        ok == is_proxied_scheme(scheme@),
{
    text_eq(scheme, "http") || text_eq(scheme, "https")
}

/// Whether the request path, without its leading slashes, is an absolute
/// `http` or `https` URL.
pub fn is_url_path(path: &str) -> (ok: bool)
    ensures
        ok == spec_is_url_path(path@),
{
    match parse_url(trim_leading_slashes(path)) {
        Some(url) => is_proxied_scheme_text(url.scheme()),
        None => false,
    }
}

/// The URL that the request path names, with the pairs of the raw query
/// appended to its query; `None` unless it is an `http` or `https` URL.
pub fn url_path(path: &str, query: &str) -> (url: Option<TargetUrl>)
    ensures
        match url {
            Some(u) => spec_url_path(path@, query@) == Some(u@) && is_proxied_scheme(u@.1),
            None => spec_url_path(path@, query@) is None,
        },
{
    match parse_url(trim_leading_slashes(path)) {
        Some(url) => {
            let url = if query.unicode_len() == 0 {
                url
            } else {
                append_query_pairs(url, query)
            };
            if is_proxied_scheme_text(url.scheme()) {
                Some(url)
            } else {
                None
            }
        },
        None => None,
    }
}

/// The raw query of a request, or the empty text when it has none.
pub fn query_raw(query: Option<&str>) -> (raw: String)
    ensures
        raw@ == match query {
            Some(q) => q@,
            None => Seq::<char>::empty(),
        },
{
    match query {
        Some(q) => q.to_owned(),
        None => String::new(),
    }
}

} // verus!
