//! The CORS headers that every answer of the proxy carries.

use vstd::prelude::*;
use vstd::utf8::{encode_utf8, is_ascii_chars, is_ascii_chars_encode_utf8};
use warp::http::header::{HeaderMap, HeaderName, HeaderValue};
use crate::client::{names_without, strip_set_cookie};
use crate::headers::{
    HeaderFields, has_room, header_fields, header_key, header_map_insert, header_map_keys,
    header_name_as_str, header_name_text, header_names, header_value_from_str,
    is_header_name_char, is_header_value, is_well_formed_map, lemma_known_header_names,
    lemma_room_after_insert, lemma_room_after_remove, with_name,
};
use crate::text::{join, join_with};

verus! {

/// The fields after a header is set to `value` the way a reply is given a
/// header: it replaces every value of the header, and a value holding a
/// byte no header may hold is left out.
pub open spec fn with_header(fields: HeaderFields, key: Seq<char>, value: Seq<char>) -> HeaderFields {
    if is_header_value(encode_utf8(value)) {
        fields.insert(key, seq![encode_utf8(value)])
    } else {
        fields
    }
}

/// The order of the names after a header is set to `value`: a header that
/// is new comes last.
pub open spec fn with_header_names(names: Seq<Seq<char>>, key: Seq<char>, value: Seq<char>) -> Seq<
    Seq<char>,
> {
    if is_header_value(encode_utf8(value)) {
        with_name(names, key)
    } else {
        names
    }
}

/// `names` lists each name of `fields` exactly once.
pub open spec fn lists_each_once(names: Seq<Seq<char>>, fields: HeaderFields) -> bool {
    &&& forall|i: int| 0 <= i < names.len() ==> fields.contains_key(#[trigger] names[i])
    &&& forall|i: int, j: int|
        0 <= i < names.len() && 0 <= j < names.len() && i != j ==> #[trigger] names[i]
            != #[trigger] names[j]
    &&& forall|key: Seq<char>|
        #[trigger] fields.contains_key(key) ==> exists|i: int|
            0 <= i < names.len() && #[trigger] names[i] == key
}

/// The fields with `Access-Control-Expose-Headers` naming the headers in
/// `names`, in that order, joined with `, `; unchanged when there is none.
pub open spec fn exposing(fields: HeaderFields, names: Seq<Seq<char>>) -> HeaderFields {
    if names.len() == 0 {
        fields
    } else {
        with_header(fields, "access-control-expose-headers"@, join_with(names, ", "@))
    }
}

/// The order of the names after `exposing`.
pub open spec fn exposing_names(names: Seq<Seq<char>>) -> Seq<Seq<char>> {
    if names.len() == 0 {
        names
    } else {
        with_header_names(names, "access-control-expose-headers"@, join_with(names, ", "@))
    }
}

/// Sets the header `name` to `value` (`warp::reply::with_header`): the value
/// replaces every value of the header, and one holding a byte that no header
/// value may hold is left out.
pub fn set_header(headers: &mut HeaderMap<HeaderValue>, name: &'static str, value: &str)
    requires
        header_key(name@) == Some(name@),
        has_room(header_fields(*old(headers)), 1),
    ensures
        header_fields(*final(headers)) == with_header(header_fields(*old(headers)), name@, value@),
        header_names(*final(headers)) == with_header_names(header_names(*old(headers)), name@, value@),
{
    match header_value_from_str(value) {
        Ok(v) => header_map_insert(headers, name, v),
        Err(_) => {},
    }
}

/// Lets the browser send credentials: `Access-Control-Allow-Credentials: true`.
pub fn allow_credentials(headers: &mut HeaderMap<HeaderValue>)
    requires
        has_room(header_fields(*old(headers)), 1),
    ensures
        header_fields(*final(headers)) == with_header(
            header_fields(*old(headers)),
            "access-control-allow-credentials"@,
            "true"@,
        ),
        header_names(*final(headers)) == with_header_names(
            header_names(*old(headers)),
            "access-control-allow-credentials"@,
            "true"@,
        ),
{
    proof {
        lemma_known_header_names();
    }
    set_header(headers, "access-control-allow-credentials", "true");
}

/// Allows the requesting origin: `Access-Control-Allow-Origin: <origin>`.
pub fn allow_origin(headers: &mut HeaderMap<HeaderValue>, origin: &str)
    requires
        has_room(header_fields(*old(headers)), 1),
    ensures
        header_fields(*final(headers)) == with_header(
            header_fields(*old(headers)),
            "access-control-allow-origin"@,
            origin@,
        ),
        header_names(*final(headers)) == with_header_names(
            header_names(*old(headers)),
            "access-control-allow-origin"@,
            origin@,
        ),
{
    proof {
        lemma_known_header_names();
    }
    set_header(headers, "access-control-allow-origin", origin);
}

/// A character of a header name, or of the `, ` between names.
pub open spec fn is_name_list_char(c: char) -> bool {
    is_header_name_char(c) || c == ',' || c == ' '
}

pub proof fn lemma_join_name_list_chars(names: Seq<Seq<char>>)
    requires
        forall|i: int, j: int|
            0 <= i < names.len() && 0 <= j < names[i].len() ==> is_header_name_char(
                #[trigger] names[i][j],
            ),
    ensures
        forall|j: int|
            0 <= j < join_with(names, ", "@).len() ==> is_name_list_char(
                #[trigger] join_with(names, ", "@)[j],
            ),
    decreases names.len(),
{
    reveal_strlit(", ");
    if names.len() > 1 {
        lemma_join_name_list_chars(names.drop_last());
        let a = join_with(names.drop_last(), ", "@);
        let last = names.last();
        assert forall|j: int| 0 <= j < join_with(names, ", "@).len() implies is_name_list_char(
            #[trigger] join_with(names, ", "@)[j],
        ) by {
            if j >= a.len() + 2 {
                assert(join_with(names, ", "@)[j] == last[j - a.len() - 2]);
                assert(is_header_name_char(names[names.len() - 1][j - a.len() - 2]));
            }
        }
    } else if names.len() == 1 {
        assert(forall|j: int| 0 <= j < names[0].len() ==> is_header_name_char(#[trigger] names[0][j]));
    }
}

/// A list of header names joined with `, ` is a valid header value.
pub proof fn lemma_name_list_is_header_value(s: Seq<char>)
    requires
        forall|j: int| 0 <= j < s.len() ==> is_name_list_char(#[trigger] s[j]),
    ensures
        is_header_value(encode_utf8(s)),
{
    assert(is_ascii_chars(s));
    is_ascii_chars_encode_utf8(s);
}

/// Lets the browser read every header of a proxied response:
/// `Access-Control-Expose-Headers` names them all, in the map's order,
/// joined with `, `. Nothing changes when there is no header.
pub fn expose_all_headers(headers: &mut HeaderMap<HeaderValue>)
    requires
        has_room(header_fields(*old(headers)), 1),
    ensures
        header_fields(*final(headers)) == exposing(header_fields(*old(headers)), header_names(*old(headers))),
        header_names(*final(headers)) == exposing_names(header_names(*old(headers))),
{
    proof {
        lemma_known_header_names();
    }
    let ghost names = header_names(*headers);
    let keys = header_map_keys(headers);
    let mut texts: Vec<String> = Vec::new();
    let mut i: usize = 0;
    while i < keys.len()
        invariant
            names == keys@.map_values(|k: HeaderName| header_name_text(k)),
            i <= keys.len(),
            texts@.map_values(|t: String| t@) == names.take(i as int),
        decreases keys.len() - i,
    {
        let text = header_name_as_str(&keys[i]).to_owned();
        let ghost before = texts@.map_values(|t: String| t@);
        texts.push(text);
        assert(texts@.map_values(|t: String| t@) =~= before.push(text@));
        assert(names.take(i + 1) =~= names.take(i as int).push(names[i as int]));
        i = i + 1;
    }
    assert(names.take(keys.len() as int) =~= names);
    if keys.len() > 0 {
        let joined = join(&texts, ", ");
        set_header(headers, "access-control-expose-headers", joined.as_str());
    }
}

/// The headers of a proxied response as the client gets them: without
/// `Set-Cookie`, exposing every remaining header in order, allowing
/// `origin` and credentials.
pub open spec fn proxied_response_fields(
    fields: HeaderFields,
    names: Seq<Seq<char>>,
    origin: Seq<char>,
) -> HeaderFields {
    with_header(
        with_header(
            exposing(fields.remove("set-cookie"@), names_without(names, "set-cookie"@)),
            "access-control-allow-origin"@,
            origin,
        ),
        "access-control-allow-credentials"@,
        "true"@,
    )
}

/// The order of the names of a proxied response as the client gets them.
pub open spec fn proxied_response_names(names: Seq<Seq<char>>, origin: Seq<char>) -> Seq<Seq<char>> {
    with_header_names(
        with_header_names(
            exposing_names(names_without(names, "set-cookie"@)),
            "access-control-allow-origin"@,
            origin,
        ),
        "access-control-allow-credentials"@,
        "true"@,
    )
}

/// Turns the headers of the response the proxy got into those the client
/// gets: drops `Set-Cookie`, exposes every header left, then allows
/// `origin` and credentials.
pub fn proxied_response_headers(headers: &mut HeaderMap<HeaderValue>, origin: &str)
    requires
        has_room(header_fields(*old(headers)), 3),
    ensures
        is_well_formed_map(*old(headers)),
        header_fields(*final(headers)) == proxied_response_fields(
            header_fields(*old(headers)),
            header_names(*old(headers)),
            origin@,
        ),
        header_names(*final(headers)) == proxied_response_names(header_names(*old(headers)), origin@),
{
    proof {
        lemma_known_header_names();
        lemma_room_after_remove(header_fields(*headers), "set-cookie"@, 3);
    }
    let ghost f0 = header_fields(*headers);
    strip_set_cookie(headers);
    let ghost f1 = header_fields(*headers);
    let ghost n1 = header_names(*headers);
    expose_all_headers(headers);
    proof {
        if n1.len() > 0 && is_header_value(encode_utf8(join_with(n1, ", "@))) {
            lemma_room_after_insert(f1, "access-control-expose-headers"@, seq![encode_utf8(join_with(n1, ", "@))], 2);
        }
    }
    let ghost f2 = header_fields(*headers);
    allow_origin(headers, origin);
    proof {
        if is_header_value(encode_utf8(origin@)) {
            lemma_room_after_insert(f2, "access-control-allow-origin"@, seq![encode_utf8(origin@)], 1);
        }
    }
    allow_credentials(headers);
}

} // verus!
