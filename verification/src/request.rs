//! The request that the proxy sends on: hop-by-hop headers, cookies and
//! `Host` are dropped, and the proxy adds itself to `Via`.

use vstd::prelude::*;
use vstd::utf8::encode_utf8;
use warp::http::header::{HeaderMap, HeaderValue};
use crate::error::Error;
use crate::headers::{
    HeaderFields, ascii_text, has_room, header_fields, header_key, header_map_get, header_map_insert,
    header_map_remove, header_map_set_first, header_value_from_str, header_value_to_str,
    is_header_value, is_visible_ascii, lemma_known_header_names, lemma_room_after_remove, lookup_key,
    is_well_formed_map, header_names, swap_removed, with_name,
};
use crate::text::{split_commas, split_on, trim, trim_ws};

verus! {

/// The fields without the header named `name`, looked up by its key
/// (`lookup_key`); nothing changes for a name under which nothing is found.
pub open spec fn without_header(fields: HeaderFields, name: Seq<char>) -> HeaderFields {
    match lookup_key(name) {
        Some(key) => fields.remove(key),
        None => fields,
    }
}

/// The fields without any of the headers named in `names`.
pub open spec fn without_headers(fields: HeaderFields, names: Seq<Seq<char>>) -> HeaderFields
    decreases names.len(),
{
    if names.len() == 0 {
        fields
    } else {
        without_header(without_headers(fields, names.drop_last()), names.last())
    }
}

/// The order of the names after the header named `name` is removed: the
/// last entry takes the place of the removed one.
pub open spec fn names_without_header(names: Seq<Seq<char>>, name: Seq<char>) -> Seq<Seq<char>> {
    match lookup_key(name) {
        Some(key) => swap_removed(names, key),
        None => names,
    }
}

/// The order of the names after the headers named in `listed` are removed,
/// one after the other.
pub open spec fn names_without_headers(names: Seq<Seq<char>>, listed: Seq<Seq<char>>) -> Seq<
    Seq<char>,
>
    decreases listed.len(),
{
    if listed.len() == 0 {
        names
    } else {
        names_without_header(names_without_headers(names, listed.drop_last()), listed.last())
    }
}

/// The text of a header value as the proxy reads it: empty unless the value
/// is visible ASCII.
pub open spec fn value_text_or_empty(bytes: Seq<u8>) -> Seq<char> {
    if is_visible_ascii(bytes) {
        ascii_text(bytes)
    } else {
        Seq::empty()
    }
}

/// The header names that a `Connection` value lists: its comma-separated
/// pieces, trimmed.
pub open spec fn connection_listed(value: Seq<u8>) -> Seq<Seq<char>> {
    split_on(value_text_or_empty(value), ',').map_values(|p: Seq<char>| trim_ws(p))
}

/// The fields without `Connection` and without every header it lists.
pub open spec fn without_connection_headers(fields: HeaderFields) -> HeaderFields {
    if fields.contains_key("connection"@) {
        without_headers(fields.remove("connection"@), connection_listed(fields["connection"@][0]))
    } else {
        fields
    }
}

/// The order of the names after `Connection` and every header it lists are
/// removed.
pub open spec fn without_connection_names(fields: HeaderFields, names: Seq<Seq<char>>) -> Seq<
    Seq<char>,
> {
    if fields.contains_key("connection"@) {
        names_without_headers(
            swap_removed(names, "connection"@),
            connection_listed(fields["connection"@][0]),
        )
    } else {
        names
    }
}

/// `value` added to the text `current`: after `, `, or alone when `current`
/// is empty.
pub open spec fn combined_text(current: Seq<char>, value: Seq<char>) -> Seq<char> {
    if current.len() == 0 {
        value
    } else {
        current + ", "@ + value
    }
}

/// The fields with `value` added to the header `key`: appended after `, `
/// to its first value when that value has text, put in its place when it
/// has none, or stored as the header's only value when the header is
/// absent; `None` when the resulting value holds a byte no header may hold.
pub open spec fn appended_header(fields: HeaderFields, key: Seq<char>, value: Seq<char>) -> Option<
    HeaderFields,
> {
    if fields.contains_key(key) {
        let combined = combined_text(value_text_or_empty(fields[key][0]), value);
        if is_header_value(encode_utf8(combined)) {
            Some(fields.insert(key, fields[key].update(0, encode_utf8(combined))))
        } else {
            None
        }
    } else if is_header_value(encode_utf8(value)) {
        Some(fields.insert(key, seq![encode_utf8(value)]))
    } else {
        None
    }
}

/// What the proxy adds to `Via` for itself: protocol version 2.0 and its
/// pseudonym `host`.
pub open spec fn via_entry(host: Seq<char>) -> Seq<char> {
    "2.0 "@ + host
}

/// The order of the names of the request that is sent on, before `Via`:
/// `Connection` and the headers it lists, then `Cookie`, then `Host` are
/// removed in turn.
pub open spec fn stripped_names(fields: HeaderFields, names: Seq<Seq<char>>) -> Seq<Seq<char>> {
    swap_removed(swap_removed(without_connection_names(fields, names), "cookie"@), "host"@)
}

/// The headers of the request that is sent on, or `None` when the `Via`
/// value that results would not be a valid header value.
pub open spec fn forwarded_fields(fields: HeaderFields, host: Seq<char>) -> Option<HeaderFields> {
    appended_header(
        without_connection_headers(fields).remove("cookie"@).remove("host"@),
        "via"@,
        via_entry(host),
    )
}

/// Removes the `Connection` header and every header that it names.
pub fn remove_connection_headers(headers: &mut HeaderMap<HeaderValue>)
    ensures
        is_well_formed_map(*old(headers)),
        header_fields(*final(headers)) == without_connection_headers(header_fields(*old(headers))),
        header_names(*final(headers)) == without_connection_names(
            header_fields(*old(headers)),
            header_names(*old(headers)),
        ),
{
    proof {
        lemma_known_header_names();
    }
    let ghost fields0 = header_fields(*headers);
    let ghost names0 = header_names(*headers);
    match header_map_remove(headers, "connection") {
        Some(connection) => {
            let text = match header_value_to_str(&connection) {
                Some(t) => t,
                None => String::new(),
            };
            assert(text@ == value_text_or_empty(fields0["connection"@][0]));
            let pieces = split_commas(text.as_str());
            let ghost listed = connection_listed(fields0["connection"@][0]);
            let ghost base = fields0.remove("connection"@);
            let ghost base_names = swap_removed(names0, "connection"@);
            let mut i: usize = 0;
            assert(listed.take(0) =~= Seq::<Seq<char>>::empty());
            while i < pieces.len()
                invariant
                    i <= pieces@.len(),
                    listed == pieces@.map_values(|p: &str| p@).map_values(|p: Seq<char>| trim_ws(p)),
                    header_fields(*headers) == without_headers(base, listed.take(i as int)),
                    header_names(*headers) == names_without_headers(base_names, listed.take(i as int)),
                decreases pieces.len() - i,
            {
                let name = trim(pieces[i]);
                assert(name@ == listed[i as int]);
                header_map_remove(headers, name);
                assert(listed.take(i + 1).drop_last() =~= listed.take(i as int));
                assert(listed.take(i + 1).last() == listed[i as int]);
                i = i + 1;
            }
            assert(listed.take(pieces.len() as int) =~= listed);
        },
        None => {},
    }
}

/// Adds `value` to the header `name`: after `, ` when the header already has
/// a value with text, in place of its first value when that value has no
/// text, or as a new header; fails, leaving the headers as they were, when
/// the resulting value holds a byte that no header value may hold.
pub fn append_or_insert_header(
    headers: &mut HeaderMap<HeaderValue>,
    name: &'static str,
    value: &str,
) -> (result: Result<(), Error>)
    requires
        header_key(name@) == Some(name@),
        has_room(header_fields(*old(headers)), 1),
    ensures
        match appended_header(header_fields(*old(headers)), name@, value@) {
            Some(fields) => {
                &&& result is Ok
                &&& header_fields(*final(headers)) == fields
                &&& header_names(*final(headers)) == with_name(header_names(*old(headers)), name@)
            },
            None => {
                &&& result matches Err(e) && e is InvalidHeaderValue
                    && e.spec_message() == "failed to parse header value"@
                &&& header_fields(*final(headers)) == header_fields(*old(headers))
                &&& header_names(*final(headers)) == header_names(*old(headers))
            },
        },
{
    let ghost fields = header_fields(*headers);
    let current_text = match header_map_get(headers, name) {
        Some(current) => Some(
            match header_value_to_str(current) {
                Some(t) => t,
                None => String::new(),
            },
        ),
        None => None,
    };
    match current_text {
        Some(current) => {
            assert(current@ == value_text_or_empty(fields[name@][0]));
            let combined = if current.unicode_len() == 0 {
                value.to_owned()
            } else {
                let mut c = current;
                c.append(", ");
                c.append(value);
                c
            };
            match header_value_from_str(combined.as_str()) {
                Ok(v) => {
                    header_map_set_first(headers, name, v);
                    Ok(())
                },
                Err(e) => Err(Error::from_invalid_header_value(e)),
            }
        },
        None => {
            match header_value_from_str(value) {
                Ok(v) => {
                    header_map_insert(headers, name, v);
                    Ok(())
                },
                Err(e) => Err(Error::from_invalid_header_value(e)),
            }
        },
    }
}

} // verus!

verus! {

/// Removing headers leaves at least as much room.
pub proof fn lemma_room_without_headers(fields: HeaderFields, names: Seq<Seq<char>>, n: nat)
    requires
        has_room(fields, n),
    ensures
        has_room(without_headers(fields, names), n),
    decreases names.len(),
{
    if names.len() > 0 {
        lemma_room_without_headers(fields, names.drop_last(), n);
        if let Some(key) = lookup_key(names.last()) {
            lemma_room_after_remove(without_headers(fields, names.drop_last()), key, n);
        }
    }
}

/// Rewrites the headers of a request that is about to be sent on: drops
/// `Connection` and every header it lists, `Cookie` and `Host`, and adds
/// `2.0 <host>` to `Via`. Fails when that `Via` value would hold a byte no
/// header value may hold.
pub fn forward_request_headers(headers: &mut HeaderMap<HeaderValue>, host: &str) -> (result: Result<(), Error>)
    requires
        has_room(header_fields(*old(headers)), 1),
    ensures
        is_well_formed_map(*old(headers)),
        match forwarded_fields(header_fields(*old(headers)), host@) {
            Some(fields) => {
                &&& result is Ok
                &&& header_fields(*final(headers)) == fields
                &&& header_names(*final(headers)) == with_name(
                    stripped_names(header_fields(*old(headers)), header_names(*old(headers))),
                    "via"@,
                )
            },
            None => {
                &&& result matches Err(e) && e is InvalidHeaderValue
                    && e.spec_message() == "failed to parse header value"@
                &&& header_fields(*final(headers)) == without_connection_headers(
                    header_fields(*old(headers)),
                ).remove("cookie"@).remove("host"@)
                &&& header_names(*final(headers)) == stripped_names(
                    header_fields(*old(headers)),
                    header_names(*old(headers)),
                )
            },
        },
{
    proof {
        lemma_known_header_names();
    }
    let ghost fields0 = header_fields(*headers);
    remove_connection_headers(headers);
    proof {
        let f = fields0;
        if f.contains_key("connection"@) {
            lemma_room_after_remove(f, "connection"@, 1);
            lemma_room_without_headers(
                f.remove("connection"@),
                connection_listed(f["connection"@][0]),
                1,
            );
        }
        lemma_room_after_remove(without_connection_headers(f), "cookie"@, 1);
        lemma_room_after_remove(without_connection_headers(f).remove("cookie"@), "host"@, 1);
    }
    header_map_remove(headers, "cookie");
    header_map_remove(headers, "host");
    let mut via = "2.0 ".to_owned();
    via.append(host);
    append_or_insert_header(headers, "via", via.as_str())
}

} // verus!
