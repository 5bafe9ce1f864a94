//! URLs parsed by the `url` crate, carried together with the two parts of
//! them that the proxy rules read: the serialization and the scheme.

use vstd::prelude::*;
use url::Url;

verus! {

#[verifier::external_type_specification]
#[verifier::external_body]
pub struct ExUrl(Url);

/// A URL as `url::Url` holds it, with its serialization and scheme.
///
/// A `url::Url` is determined by its serialization (two URLs are equal when
/// their serializations are), so the view `(serialization, scheme)` stands
/// for the whole URL.
pub struct TargetUrl {
    url: Url,
    serialization: String,
    scheme: String,
}

impl View for TargetUrl {
    type V = (Seq<char>, Seq<char>);

    closed spec fn view(&self) -> (Seq<char>, Seq<char>) {
        (self.serialization@, self.scheme@)
    }
}

/// What `Url::parse` makes of a text: the serialization and the scheme of
/// the URL, or `None` when the text is not an absolute URL.
pub uninterp spec fn parsed_url(input: Seq<char>) -> Option<(Seq<char>, Seq<char>)>;

/// The URL that `query_pairs_mut().extend_pairs(form_urlencoded::parse(query))`
/// makes of a URL: the pairs of `query` appended to its query.
pub uninterp spec fn url_with_query_pairs(url: (Seq<char>, Seq<char>), query: Seq<char>) -> (
    Seq<char>,
    Seq<char>,
);

/// `Url::parse` (the `FromStr` of `url::Url`).
#[verifier::external_body]
pub(crate) fn parse_url(input: &str) -> (url: Option<TargetUrl>)
    ensures
        match url {
            Some(u) => parsed_url(input@) == Some(u@),
            None => parsed_url(input@) is None,
        },
{
    match input.parse::<Url>() {
        Ok(u) => Some(TargetUrl { serialization: u.as_str().to_owned(), scheme: u.scheme().to_owned(), url: u }),
        Err(_) => None,
    }
}

/// `Url::query_pairs_mut` followed by `extend_pairs` with the pairs that
/// `form_urlencoded::parse` reads from `query`: the result is named, and it
/// keeps the scheme (only the query of the URL is rewritten).
#[verifier::external_body]
pub(crate) fn append_query_pairs(target: TargetUrl, query: &str) -> (url: TargetUrl)
    ensures
        url@ == url_with_query_pairs(target@, query@),
        url@.1 == target@.1,
{
    let mut u = target.url;
    u.query_pairs_mut().extend_pairs(url::form_urlencoded::parse(query.as_bytes()));
    TargetUrl { serialization: u.as_str().to_owned(), scheme: u.scheme().to_owned(), url: u }
}

impl TargetUrl {
    /// The serialization of the URL.
    pub fn as_str(&self) -> (s: &str)
        ensures
            s@ == self@.0,
    {
        self.serialization.as_str()
    }

    /// The scheme of the URL.
    pub fn scheme(&self) -> (s: &str)
        ensures
            s@ == self@.1,
    {
        self.scheme.as_str()
    }
}

} // verus!
