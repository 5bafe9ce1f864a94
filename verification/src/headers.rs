//! The HTTP header collection of requests and responses (`http::HeaderMap`),
//! modelled as a map from lower-case header names to their values, in order.

use vstd::prelude::*;
use vstd::string::StringSliceAdditionalSpecFns;
use vstd::utf8::encode_utf8;
use warp::http::header::{HeaderMap, HeaderName, HeaderValue, InvalidHeaderValue};

verus! {

#[verifier::external_type_specification]
#[verifier::external_body]
#[verifier::reject_recursive_types(T)]
pub struct ExHeaderMap<T>(HeaderMap<T>);

#[verifier::external_type_specification]
#[verifier::external_body]
pub struct ExHeaderName(HeaderName);

#[verifier::external_type_specification]
#[verifier::external_body]
pub struct ExHeaderValue(HeaderValue);

#[verifier::external_type_specification]
#[verifier::external_body]
pub struct ExInvalidHeaderValue(InvalidHeaderValue);

/// The names and values that a header map holds.
pub type HeaderFields = Map<Seq<char>, Seq<Seq<u8>>>;

/// What a header map holds: each lower-case header name that is present,
/// with its values in order (the first one is the one `get` returns).
pub uninterp spec fn header_fields(map: HeaderMap<HeaderValue>) -> Map<Seq<char>, Seq<Seq<u8>>>;

/// The names that a header map holds, in the order of its entries (the
/// order in which `keys` and `iter` give them).
pub uninterp spec fn header_names(map: HeaderMap<HeaderValue>) -> Seq<Seq<char>>;

/// The bytes that a header value holds.
pub uninterp spec fn header_value_bytes(value: HeaderValue) -> Seq<u8>;

/// The text of a header name (`HeaderName::as_str`).
pub uninterp spec fn header_name_text(name: HeaderName) -> Seq<char>;

/// A character that may stand in a header name: a letter, a digit, or one of
/// the symbols that `http` accepts in names.
pub open spec fn is_header_name_char(c: char) -> bool {
    ||| ('a' <= c && c <= 'z')
    ||| ('A' <= c && c <= 'Z')
    ||| ('0' <= c && c <= '9')
    ||| c == '!' || c == '"' || c == '#' || c == '$' || c == '%' || c == '&' || c == '\''
    ||| c == '*' || c == '+' || c == '-' || c == '.' || c == '^' || c == '_' || c == '`'
    ||| c == '|' || c == '~'
}

/// ASCII lower-casing of one character.
pub open spec fn lower_char(c: char) -> char {
    if 'A' <= c && c <= 'Z' {
        ((c as u32) + 32) as char
    } else {
        c
    }
}

/// The longest header name that `http` accepts.
pub open spec fn max_header_name_len() -> nat {
    65535
}

/// The key under which a header map stores the header named `name`: its
/// lower-case form, or `None` when `name` is not a valid header name.
pub open spec fn header_key(name: Seq<char>) -> Option<Seq<char>> {
    if 1 <= name.len() <= max_header_name_len()
        && (forall|i: int| 0 <= i < name.len() ==> is_header_name_char(#[trigger] name[i])) {
        Some(name.map_values(|c: char| lower_char(c)))
    } else {
        None
    }
}

/// A byte that a header value may hold.
pub open spec fn is_header_value_byte(b: u8) -> bool {
    (b >= 32 && b != 127) || b == 9
}

/// A byte that `HeaderValue::to_str` accepts (visible ASCII, space or tab).
pub open spec fn is_visible_ascii_byte(b: u8) -> bool {
    (b >= 32 && b < 127) || b == 9
}

/// Bytes that a header value may hold.
pub open spec fn is_header_value(bytes: Seq<u8>) -> bool {
    forall|i: int| 0 <= i < bytes.len() ==> is_header_value_byte(#[trigger] bytes[i])
}

/// Bytes that `HeaderValue::to_str` turns into text.
pub open spec fn is_visible_ascii(bytes: Seq<u8>) -> bool {
    forall|i: int| 0 <= i < bytes.len() ==> is_visible_ascii_byte(#[trigger] bytes[i])
}

/// The text of a header value whose bytes are all ASCII.
pub open spec fn ascii_text(bytes: Seq<u8>) -> Seq<char> {
    bytes.map_values(|b: u8| b as char)
}

/// A character that a stored header name may hold: a header-name character
/// in lower case, or NUL (`http` stores NUL in place of any other byte of a
/// name longer than 64 bytes that was inserted through a static text).
pub open spec fn is_stored_name_char(c: char) -> bool {
    (is_header_name_char(c) && lower_char(c) == c) || c == '\0'
}

/// A name as a header map stores it: 1 to 65535 stored-name characters, with
/// NUL only in names longer than 64 bytes.
pub open spec fn is_stored_name(name: Seq<char>) -> bool {
    &&& 1 <= name.len() <= max_header_name_len()
    &&& forall|i: int| 0 <= i < name.len() ==> is_stored_name_char(#[trigger] name[i])
    &&& name.len() <= 64 ==> forall|i: int| 0 <= i < name.len() ==> #[trigger] name[i] != '\0'
}

/// What every header map holds: stored names, each with at least one value.
pub open spec fn is_stored_fields(fields: HeaderFields) -> bool {
    forall|key: Seq<char>|
        #[trigger] fields.contains_key(key) ==> is_stored_name(key) && fields[key].len() > 0
}

/// A header map's names and their order agree: the order lists each name
/// present exactly once.
pub open spec fn is_well_formed(fields: HeaderFields, names: Seq<Seq<char>>) -> bool {
    &&& is_stored_fields(fields)
    &&& names.no_duplicates()
    &&& forall|key: Seq<char>| #[trigger] fields.contains_key(key) <==> names.contains(key)
}

/// A header map is well formed.
pub open spec fn is_well_formed_map(map: HeaderMap<HeaderValue>) -> bool {
    is_well_formed(header_fields(map), header_names(map))
}

/// The order of the names after `key` is removed: the last name takes its
/// place (`Vec::swap_remove`).
pub open spec fn swap_removed(names: Seq<Seq<char>>, key: Seq<char>) -> Seq<Seq<char>> {
    if names.contains(key) {
        names.update(names.index_of(key), names.last()).drop_last()
    } else {
        names
    }
}

/// The order of the names after `key` is stored: a new name comes last.
pub open spec fn with_name(names: Seq<Seq<char>>, key: Seq<char>) -> Seq<Seq<char>> {
    if names.contains(key) {
        names
    } else {
        names.push(key)
    }
}

/// The character that a header map keeps for one byte of a name it reads
/// byte by byte: the byte's lower-case form when it may stand in a name,
/// NUL otherwise.
pub open spec fn stored_byte_char(b: u8) -> char {
    if b < 128 && is_header_name_char(b as char) {
        lower_char(b as char)
    } else {
        '\0'
    }
}

/// The key under which a header map looks up the name `name`: the name's
/// lower-case form when it is a valid header name. An invalid name of 65 to
/// 65535 bytes is not checked: it is read byte by byte (`stored_byte_char`).
/// Any other invalid name (empty, of at most 64 bytes, or longer than 65535
/// bytes) is refused, and nothing is found under it (`None`).
pub open spec fn lookup_key(name: Seq<char>) -> Option<Seq<char>> {
    if header_key(name) is Some {
        header_key(name)
    } else if 65 <= encode_utf8(name).len() <= max_header_name_len() {
        Some(encode_utf8(name).map_values(|b: u8| stored_byte_char(b)))
    } else {
        None
    }
}

/// The most distinct names a header map is known to take without running
/// out of table space.
pub open spec fn header_map_capacity() -> nat {
    6553
}

/// The map holds few enough names that `n` more fit without it outgrowing
/// its table.
pub open spec fn has_room(fields: HeaderFields, n: nat) -> bool {
    fields.dom().finite() && fields.dom().len() + n <= header_map_capacity()
}

/// Removing a name leaves at least as much room.
pub proof fn lemma_room_after_remove(fields: HeaderFields, key: Seq<char>, n: nat)
    requires
        has_room(fields, n),
    ensures
        has_room(fields.remove(key), n),
{
    assert(fields.remove(key).dom() =~= fields.dom().remove(key));
}

/// Inserting one name uses up at most one place.
pub proof fn lemma_room_after_insert(
    fields: HeaderFields,
    key: Seq<char>,
    values: Seq<Seq<u8>>,
    n: nat,
)
    requires
        has_room(fields, n + 1),
    ensures
        has_room(fields.insert(key, values), n),
{
    assert(fields.insert(key, values).dom() =~= fields.dom().insert(key));
}

/// The header names that the proxy itself reads or writes are valid and
/// already in lower case, so each is its own key.
pub proof fn lemma_known_header_names()
    ensures
        header_key("connection"@) == Some("connection"@),
        header_key("cookie"@) == Some("cookie"@),
        header_key("host"@) == Some("host"@),
        header_key("via"@) == Some("via"@),
        header_key("set-cookie"@) == Some("set-cookie"@),
        header_key("origin"@) == Some("origin"@),
        header_key("access-control-request-method"@) == Some("access-control-request-method"@),
        header_key("access-control-request-headers"@) == Some("access-control-request-headers"@),
        header_key("access-control-allow-origin"@) == Some("access-control-allow-origin"@),
        header_key("access-control-allow-credentials"@) == Some("access-control-allow-credentials"@),
        header_key("access-control-allow-methods"@) == Some("access-control-allow-methods"@),
        header_key("access-control-allow-headers"@) == Some("access-control-allow-headers"@),
        header_key("access-control-expose-headers"@) == Some("access-control-expose-headers"@),
{
    reveal_strlit("connection");
    lemma_lowercase_key("connection"@);
    reveal_strlit("cookie");
    lemma_lowercase_key("cookie"@);
    reveal_strlit("host");
    lemma_lowercase_key("host"@);
    reveal_strlit("via");
    lemma_lowercase_key("via"@);
    reveal_strlit("set-cookie");
    lemma_lowercase_key("set-cookie"@);
    reveal_strlit("origin");
    lemma_lowercase_key("origin"@);
    reveal_strlit("access-control-request-method");
    lemma_lowercase_key("access-control-request-method"@);
    reveal_strlit("access-control-request-headers");
    lemma_lowercase_key("access-control-request-headers"@);
    reveal_strlit("access-control-allow-origin");
    lemma_lowercase_key("access-control-allow-origin"@);
    reveal_strlit("access-control-allow-credentials");
    lemma_lowercase_key("access-control-allow-credentials"@);
    reveal_strlit("access-control-allow-methods");
    lemma_lowercase_key("access-control-allow-methods"@);
    reveal_strlit("access-control-allow-headers");
    lemma_lowercase_key("access-control-allow-headers"@);
    reveal_strlit("access-control-expose-headers");
    lemma_lowercase_key("access-control-expose-headers"@);
}

/// A name of lower-case letters and dashes is its own key.
proof fn lemma_lowercase_key(s: Seq<char>)
    requires
        1 <= s.len() <= max_header_name_len(),
        forall|i: int| 0 <= i < s.len() ==> (('a' <= #[trigger] s[i] && s[i] <= 'z') || s[i] == '-'),
    ensures
        header_key(s) == Some(s),
{
    assert(forall|i: int| 0 <= i < s.len() ==> is_header_name_char(#[trigger] s[i]));
    assert(s.map_values(|c: char| lower_char(c)) =~= s);
}

/// `HeaderMap::new`: an empty map.
#[verifier::external_body]
pub(crate) fn header_map_new() -> (map: HeaderMap<HeaderValue>)
    ensures
        header_fields(map) =~= Map::empty(),
        header_names(map) =~= Seq::empty(),
{
    HeaderMap::new()
}

/// `HeaderMap::get` with a `&str` name: the first value stored under the
/// name's key (`lookup_key`), if any.
#[verifier::external_body]
pub(crate) fn header_map_get<'a>(map: &'a HeaderMap<HeaderValue>, name: &str) -> (found: Option<
    &'a HeaderValue,
>)
    ensures
        match lookup_key(name@) {
            Some(key) => {
                &&& (found is Some <==> header_fields(*map).contains_key(key))
                &&& (found matches Some(v) ==> header_value_bytes(*v)
                    == header_fields(*map)[key][0])
            },
            None => found is None,
        },
{
    map.get(name)
}

/// `HeaderMap::remove` with a `&str` name: drops every value stored under
/// the name's key (`lookup_key`) and hands back the first; the last entry
/// takes the place of the removed one.
#[verifier::external_body]
pub(crate) fn header_map_remove(map: &mut HeaderMap<HeaderValue>, name: &str) -> (removed: Option<
    HeaderValue,
>)
    ensures
        is_well_formed_map(*old(map)),
        is_well_formed_map(*final(map)),
        match lookup_key(name@) {
            Some(key) => {
                &&& header_fields(*final(map)) == header_fields(*old(map)).remove(key)
                &&& header_names(*final(map)) == swap_removed(header_names(*old(map)), key)
                &&& (removed is Some <==> header_fields(*old(map)).contains_key(key))
                &&& (removed matches Some(v) ==> header_value_bytes(v)
                    == header_fields(*old(map))[key][0])
            },
            None => {
                &&& header_fields(*final(map)) == header_fields(*old(map))
                &&& header_names(*final(map)) == header_names(*old(map))
                &&& removed is None
            },
        },
{
    map.remove(name)
}

/// `HeaderMap::get_mut` with a `&str` name, used to overwrite the first
/// value stored under the name's key (`lookup_key`); reports whether there
/// was one.
#[verifier::external_body]
pub(crate) fn header_map_set_first(
    map: &mut HeaderMap<HeaderValue>,
    name: &str,
    value: HeaderValue,
) -> (found: bool)
    ensures
        is_well_formed_map(*old(map)),
        is_well_formed_map(*final(map)),
        header_names(*final(map)) == header_names(*old(map)),
        match lookup_key(name@) {
            Some(key) => {
                &&& found == header_fields(*old(map)).contains_key(key)
                &&& header_fields(*final(map)) == (if found {
                    header_fields(*old(map)).insert(
                        key,
                        header_fields(*old(map))[key].update(0, header_value_bytes(value)),
                    )
                } else {
                    header_fields(*old(map))
                })
            },
            None => {
                &&& !found
                &&& header_fields(*final(map)) == header_fields(*old(map))
            },
        },
{
    match map.get_mut(name) {
        Some(slot) => {
            *slot = value;
            true
        },
        None => false,
    }
}

/// `HeaderMap::insert` with a static name: the value replaces every value
/// stored under the name's lower-case form; a new name comes last.
#[verifier::external_body]
pub(crate) fn header_map_insert(map: &mut HeaderMap<HeaderValue>, name: &'static str, value: HeaderValue)
    requires
        header_key(name@) is Some,
        has_room(header_fields(*old(map)), 1),
    ensures
        is_well_formed_map(*old(map)),
        is_well_formed_map(*final(map)),
        header_fields(*final(map)) == header_fields(*old(map)).insert(
            header_key(name@)->0,
            seq![header_value_bytes(value)],
        ),
        header_names(*final(map)) == with_name(header_names(*old(map)), header_key(name@)->0),
{
    map.insert(name, value);
}

/// `HeaderMap::append` with a name of the map's own kind: the value is added
/// after those already stored under the name; a new name comes last.
#[verifier::external_body]
pub(crate) fn header_map_append(map: &mut HeaderMap<HeaderValue>, name: &HeaderName, value: HeaderValue)
    requires
        has_room(header_fields(*old(map)), 1),
    ensures
        is_well_formed_map(*old(map)),
        is_well_formed_map(*final(map)),
        header_fields(*final(map)) == header_fields(*old(map)).insert(
            header_name_text(*name),
            if header_fields(*old(map)).contains_key(header_name_text(*name)) {
                header_fields(*old(map))[header_name_text(*name)].push(header_value_bytes(value))
            } else {
                seq![header_value_bytes(value)]
            },
        ),
        header_names(*final(map)) == with_name(header_names(*old(map)), header_name_text(*name)),
{
    map.append(name, value);
}

/// `HeaderMap::keys`: each name present, once, in the order of the map's
/// entries. The names are as the map stores them (`is_stored_name`): in
/// lower case, save that a name of more than 64 bytes inserted through a
/// static text holds NUL in place of each byte that may not stand in a name;
/// nothing is claimed of which of those names are valid.
#[verifier::external_body]
pub(crate) fn header_map_keys(map: &HeaderMap<HeaderValue>) -> (keys: Vec<HeaderName>)
    ensures
        keys@.map_values(|k: HeaderName| header_name_text(k)) == header_names(*map),
        keys@.map_values(|k: HeaderName| header_name_text(k)).no_duplicates(),
        forall|i: int| 0 <= i < keys@.len() ==> is_stored_name(header_name_text(#[trigger] keys@[i])),
        forall|key: Seq<char>|
            #[trigger] header_fields(*map).contains_key(key) <==> keys@.map_values(
                |k: HeaderName| header_name_text(k),
            ).contains(key),
{
    map.keys().cloned().collect()
}

/// `HeaderMap::get_all` with a name of the map's own kind: every value
/// stored under it, in order (at least one when the name is present).
#[verifier::external_body]
pub(crate) fn header_map_get_all(map: &HeaderMap<HeaderValue>, name: &HeaderName) -> (values: Vec<HeaderValue>)
    ensures
        values@.map_values(|v: HeaderValue| header_value_bytes(v)) == (if header_fields(*map).contains_key(header_name_text(*name)) {
            header_fields(*map)[header_name_text(*name)]
        } else {
            Seq::empty()
        }),
        header_fields(*map).contains_key(header_name_text(*name)) ==> values@.len() > 0,
{
    map.get_all(name).iter().cloned().collect()
}

/// `HeaderName::as_str`.
#[verifier::external_body]
pub(crate) fn header_name_as_str(name: &HeaderName) -> (text: &str)
    ensures
        text@ == header_name_text(*name),
{
    name.as_str()
}

/// `HeaderValue::from_str`: accepts a text whose bytes may all stand in a
/// header value.
#[verifier::external_body]
pub(crate) fn header_value_from_str(text: &str) -> (value: Result<HeaderValue, InvalidHeaderValue>)
    ensures
        value is Ok <==> is_header_value(text.spec_bytes()),
        value matches Ok(v) ==> header_value_bytes(v) == text.spec_bytes(),
{
    HeaderValue::from_str(text)
}

/// `HeaderValue::to_str`: the value's text when it is visible ASCII.
#[verifier::external_body]
pub(crate) fn header_value_to_str(value: &HeaderValue) -> (text: Option<String>)
    ensures
        text is Some <==> is_visible_ascii(header_value_bytes(*value)),
        text matches Some(t) ==> t@ == ascii_text(header_value_bytes(*value)),
{
    value.to_str().ok().map(|t| t.to_owned())
}

/// The `Display` text of `InvalidHeaderValue`.
#[verifier::external_body]
pub(crate) fn invalid_header_value_text(error: &InvalidHeaderValue) -> (text: String)
    ensures
        text@ == "failed to parse header value"@,
{
    error.to_string()
}

} // verus!
