//! Properties of the proxy that span several of its rules.

use vstd::prelude::*;
use vstd::utf8::{encode_utf8, is_ascii_chars, is_ascii_chars_encode_utf8};
use crate::cors::{
    lemma_join_name_list_chars, lemma_name_list_is_header_value, lists_each_once,
    proxied_response_fields,
};
use crate::headers::{
    HeaderFields, ascii_text, header_key, is_header_name_char, is_header_value, is_stored_fields,
    is_visible_ascii, is_well_formed, lookup_key,
};
use crate::client::{lemma_names_without, lemma_names_without_no_duplicates, names_without};
use crate::path::{is_proxied_scheme, path_url, spec_is_url_path, spec_url_path};
use crate::request::{
    connection_listed, forwarded_fields, value_text_or_empty, via_entry,
    without_connection_headers, without_headers,
};
use crate::routes::{header_text_of, is_preflight, preflight_response_fields, spec_cors_origin};
use crate::target_url::{parsed_url, url_with_query_pairs};
use crate::text::{
    is_whitespace, join_with, split_from, split_on, trim_end_ws, trim_start_char, trim_start_ws, trim_ws,
};

verus! {

proof fn lemma_split_concat(p: Seq<char>, sep: char, q: Seq<char>, cur: Seq<char>)
    ensures
        split_from(p + seq![sep] + q, sep, cur) == split_from(p, sep, cur) + split_on(q, sep),
    decreases p.len(),
{
    let s = p + seq![sep] + q;
    if p.len() == 0 {
        assert(s =~= seq![sep] + q);
        assert(s.drop_first() =~= q);
    } else {
        assert(s[0] == p[0]);
        assert(s.drop_first() =~= p.drop_first() + seq![sep] + q);
        if p[0] == sep {
            lemma_split_concat(p.drop_first(), sep, q, Seq::empty());
            assert(split_from(s, sep, cur) =~= seq![cur] + split_from(p.drop_first(), sep, Seq::empty())
                + split_on(q, sep));
        } else {
            lemma_split_concat(p.drop_first(), sep, q, cur.push(p[0]));
        }
    }
}

proof fn lemma_split_without_sep(s: Seq<char>, sep: char, cur: Seq<char>)
    requires
        forall|i: int| 0 <= i < s.len() ==> s[i] != sep,
    ensures
        split_from(s, sep, cur) == seq![cur + s],
    decreases s.len(),
{
    if s.len() == 0 {
        assert(cur + s =~= cur);
    } else {
        lemma_split_without_sep(s.drop_first(), sep, cur.push(s[0]));
        assert(cur.push(s[0]) + s.drop_first() =~= cur + s);
    }
}

proof fn lemma_trim_name(name: Seq<char>)
    requires
        forall|i: int| 0 <= i < name.len() ==> is_header_name_char(#[trigger] name[i]),
    ensures
        trim_ws(name) == name,
        trim_ws(seq![' '] + name) == name,
{
    let spaced = seq![' '] + name;
    assert(spaced.drop_first() =~= name);
    assert(is_whitespace(' '));
    if name.len() > 0 {
        assert(is_header_name_char(name[0]));
        assert(is_header_name_char(name.last()));
    }
    assert(trim_start_ws(spaced) == trim_start_ws(name));
    assert(trim_start_ws(name) == name);
    assert(trim_end_ws(name) == name);
}

/// Header names whose characters are all header-name characters.
pub open spec fn are_header_names(names: Seq<Seq<char>>) -> bool {
    forall|i: int, j: int|
        0 <= i < names.len() && 0 <= j < names[i].len() ==> is_header_name_char(#[trigger] names[i][j])
}

/// A list of header names joined with `, ` (as in
/// `Access-Control-Expose-Headers`) reads back, split at its commas and
/// trimmed (as a `Connection` value is read), as the same names.
pub proof fn law_name_list_round_trip(names: Seq<Seq<char>>)
    requires
        names.len() >= 1,
        are_header_names(names),
    ensures
        split_on(join_with(names, ", "@), ',').map_values(|p: Seq<char>| trim_ws(p)) == names,
    decreases names.len(),
{
    reveal_strlit(", ");
    let last = names.last();
    assert(forall|j: int| 0 <= j < last.len() ==> is_header_name_char(#[trigger] last[j])) by {
        assert(forall|j: int| 0 <= j < last.len() ==> #[trigger] last[j] == names[names.len() - 1][j]);
    }
    lemma_trim_name(last);
    if names.len() == 1 {
        assert(forall|i: int| 0 <= i < last.len() ==> last[i] != ',');
        lemma_split_without_sep(last, ',', Seq::empty());
        assert(Seq::<char>::empty() + last =~= last);
        assert(split_on(join_with(names, ", "@), ',').map_values(|p: Seq<char>| trim_ws(p)) =~= names);
    } else {
        let init = names.drop_last();
        assert(are_header_names(init)) by {
            assert forall|i: int, j: int| 0 <= i < init.len() && 0 <= j < init[i].len() implies is_header_name_char(
                #[trigger] init[i][j],
            ) by {
                assert(init[i] == names[i]);
            }
        }
        law_name_list_round_trip(init);
        let head = join_with(init, ", "@);
        let tail = seq![' '] + last;
        assert(join_with(names, ", "@) =~= head + seq![','] + tail);
        lemma_split_concat(head, ',', tail, Seq::empty());
        assert(forall|i: int| 0 <= i < tail.len() ==> tail[i] != ',') by {
            assert forall|i: int| 0 <= i < tail.len() implies tail[i] != ',' by {
                if i > 0 {
                    assert(tail[i] == last[i - 1]);
                }
            }
        }
        lemma_split_without_sep(tail, ',', Seq::empty());
        assert(Seq::<char>::empty() + tail =~= tail);
        assert(split_on(join_with(names, ", "@), ',') =~= split_on(head, ',') + seq![tail]);
        assert(split_on(join_with(names, ", "@), ',').map_values(|p: Seq<char>| trim_ws(p)) =~= split_on(
            head,
            ',',
        ).map_values(|p: Seq<char>| trim_ws(p)).push(trim_ws(tail)));
        assert(init.push(last) =~= names);
    }
}

/// Only `http` and `https` URLs are proxied: the URL that a path names has
/// one of these schemes.
pub proof fn law_only_http_urls_are_proxied(path: Seq<char>, query: Seq<char>)
    ensures
        spec_url_path(path, query) is Some ==> (path_url(path) matches Some(u) && is_proxied_scheme(u.1)),
{
}

/// The preflight route and the proxy route agree on which paths name a
/// URL: a path does exactly when, whatever the query, it yields one.
pub proof fn law_url_path_agrees_with_is_url_path(path: Seq<char>, query: Seq<char>)
    ensures
        spec_is_url_path(path) == (spec_url_path(path, query) is Some),
{
}

/// Some name in `names` is looked up under the key `key`.
pub open spec fn names_key(names: Seq<Seq<char>>, key: Seq<char>) -> bool {
    exists|i: int| 0 <= i < names.len() && lookup_key(#[trigger] names[i]) == Some(key)
}

/// `key` is the key of a header that the request's `Connection` lists.
pub open spec fn is_connection_listed(fields: HeaderFields, key: Seq<char>) -> bool {
    fields.contains_key("connection"@) && names_key(connection_listed(fields["connection"@][0]), key)
}

proof fn lemma_without_headers(fields: HeaderFields, names: Seq<Seq<char>>, key: Seq<char>)
    ensures
        names_key(names, key) ==> !without_headers(fields, names).contains_key(key),
        !names_key(names, key) ==> {
            &&& without_headers(fields, names).contains_key(key) == fields.contains_key(key)
            &&& fields.contains_key(key) ==> without_headers(fields, names)[key] == fields[key]
        },
        !fields.contains_key(key) ==> !without_headers(fields, names).contains_key(key),
    decreases names.len(),
{
    if names.len() > 0 {
        let init = names.drop_last();
        lemma_without_headers(fields, init, key);
        if names_key(names, key) {
            let i = choose|i: int| 0 <= i < names.len() && lookup_key(#[trigger] names[i]) == Some(key);
            if i < names.len() - 1 {
                assert(lookup_key(init[i]) == Some(key));
            }
        } else {
            assert forall|i: int| 0 <= i < init.len() implies lookup_key(#[trigger] init[i]) != Some(key) by {
                assert(init[i] == names[i]);
            }
            assert(lookup_key(names[names.len() - 1]) != Some(key));
        }
    }
}

/// The headers that the proxy sends on lack `Connection`, `Cookie`, `Host`
/// and every header that `Connection` listed (but `Via`, which the proxy
/// writes); every other header passes unchanged, and the first `Via` value
/// ends with the proxy's own entry `2.0 <host>`.
pub proof fn law_forwarded_request_headers(fields: HeaderFields, host: Seq<char>)
    requires
        is_stored_fields(fields),
    ensures
        forwarded_fields(fields, host) matches Some(sent) ==> {
            &&& !sent.contains_key("connection"@)
            &&& !sent.contains_key("cookie"@)
            &&& !sent.contains_key("host"@)
            &&& forall|key: Seq<char>|
                is_connection_listed(fields, key) && key != "via"@ ==> !#[trigger] sent.contains_key(
                    key,
                )
            &&& forall|key: Seq<char>|
                key != "connection"@ && key != "cookie"@ && key != "host"@ && key != "via"@
                    && !is_connection_listed(fields, key) ==> {
                    &&& #[trigger] sent.contains_key(key) == fields.contains_key(key)
                    &&& fields.contains_key(key) ==> sent[key] == fields[key]
                }
            &&& sent.contains_key("via"@)
            &&& exists|earlier: Seq<char>| sent["via"@][0] == encode_utf8(earlier + via_entry(host))
        },
{
    reveal_strlit("connection");
    reveal_strlit("cookie");
    reveal_strlit("host");
    reveal_strlit("via");
    assert("host"@ != "via"@) by {
        assert("host"@.len() == 4);
    }
    assert("cookie"@ != "via"@) by {
        assert("cookie"@.len() == 6);
    }
    assert("connection"@ != "via"@) by {
        assert("connection"@.len() == 10);
    }
    let stripped = without_connection_headers(fields);
    let h = stripped.remove("cookie"@).remove("host"@);
    if let Some(sent) = forwarded_fields(fields, host) {
        assert forall|key: Seq<char>| key != "via"@ && key != "connection"@ && key != "cookie"@ && key != "host"@
            implies #[trigger] sent.contains_key(key) == h.contains_key(key) && (h.contains_key(key)
            ==> sent[key] == h[key]) by {}
        if fields.contains_key("connection"@) {
            let listed = connection_listed(fields["connection"@][0]);
            let base = fields.remove("connection"@);
            lemma_without_headers(base, listed, "connection"@);
            assert forall|key: Seq<char>| is_connection_listed(fields, key) && key != "via"@ implies !#[trigger] sent.contains_key(
                key,
            ) by {
                lemma_without_headers(base, listed, key);
            }
            assert forall|key: Seq<char>|
                key != "connection"@ && key != "cookie"@ && key != "host"@ && key != "via"@
                    && !is_connection_listed(fields, key) implies {
                    &&& #[trigger] sent.contains_key(key) == fields.contains_key(key)
                    &&& fields.contains_key(key) ==> sent[key] == fields[key]
                } by {
                lemma_without_headers(base, listed, key);
            }
        }
        let v = via_entry(host);
        if h.contains_key("via"@) {
            if fields.contains_key("connection"@) {
                lemma_without_headers(fields.remove("connection"@), connection_listed(fields["connection"@][0]), "via"@);
            }
            assert(h["via"@].len() > 0);
            let current = value_text_or_empty(h["via"@][0]);
            if current.len() == 0 {
                assert(Seq::<char>::empty() + v =~= v);
                assert(sent["via"@][0] == encode_utf8(Seq::<char>::empty() + v));
            } else {
                assert(sent["via"@][0] == encode_utf8((current + ", "@) + v));
            }
        } else {
            assert(Seq::<char>::empty() + v =~= v);
            assert(sent["via"@][0] == encode_utf8(Seq::<char>::empty() + v));
        }
        assert(!sent.contains_key("connection"@));
        assert(!sent.contains_key("cookie"@));
        assert(!sent.contains_key("host"@));
        assert(sent.contains_key("via"@));
    }
}

proof fn lemma_encode_utf8_concat(a: Seq<char>, b: Seq<char>)
    ensures
        encode_utf8(a + b) == encode_utf8(a) + encode_utf8(b),
    decreases a.len(),
{
    if a.len() == 0 {
        assert(a + b =~= b);
        assert(encode_utf8(a) + encode_utf8(b) =~= encode_utf8(b));
    } else {
        assert((a + b).drop_first() =~= a.drop_first() + b);
        lemma_encode_utf8_concat(a.drop_first(), b);
        assert(encode_utf8(a + b) =~= encode_utf8(a) + encode_utf8(b));
    }
}

proof fn lemma_header_value_concat(a: Seq<u8>, b: Seq<u8>)
    ensures
        is_header_value(a + b) == (is_header_value(a) && is_header_value(b)),
{
    if is_header_value(a) && is_header_value(b) {
        assert forall|i: int| 0 <= i < (a + b).len() implies crate::headers::is_header_value_byte(#[trigger] (a + b)[i]) by {
            if i >= a.len() {
                assert((a + b)[i] == b[i - a.len()]);
            }
        }
    }
    if is_header_value(a + b) {
        assert forall|i: int| 0 <= i < a.len() implies crate::headers::is_header_value_byte(#[trigger] a[i]) by {
            assert((a + b)[i] == a[i]);
        }
        assert forall|i: int| 0 <= i < b.len() implies crate::headers::is_header_value_byte(#[trigger] b[i]) by {
            assert((a + b)[i + a.len()] == b[i]);
        }
    }
}

/// Text whose characters are visible ASCII, space or tab.
pub open spec fn is_visible_text(s: Seq<char>) -> bool {
    forall|i: int| 0 <= i < s.len() ==> (' ' <= #[trigger] s[i] && s[i] <= '~') || s[i] == '\t'
}

proof fn lemma_visible_text_encoding(s: Seq<char>)
    requires
        is_visible_text(s),
    ensures
        is_header_value(encode_utf8(s)),
        is_visible_ascii(encode_utf8(s)),
        ascii_text(encode_utf8(s)) == s,
{
    assert(is_ascii_chars(s));
    is_ascii_chars_encode_utf8(s);
    assert(ascii_text(encode_utf8(s)) =~= s);
}

proof fn lemma_visible_bytes_text(bytes: Seq<u8>)
    requires
        is_visible_ascii(bytes),
    ensures
        is_visible_text(ascii_text(bytes)),
{
}

/// With a pseudonym that is a valid header value, forwarding a request
/// never fails.
pub proof fn law_forwarding_succeeds(fields: HeaderFields, host: Seq<char>)
    requires
        is_header_value(encode_utf8(host)),
    ensures
        forwarded_fields(fields, host) is Some,
{
    reveal_strlit("2.0 ");
    reveal_strlit(", ");
    let h = without_connection_headers(fields).remove("cookie"@).remove("host"@);
    let v = via_entry(host);
    lemma_visible_text_encoding("2.0 "@);
    lemma_encode_utf8_concat("2.0 "@, host);
    lemma_header_value_concat(encode_utf8("2.0 "@), encode_utf8(host));
    assert(is_header_value(encode_utf8(v)));
    if h.contains_key("via"@) {
        let current = value_text_or_empty(h["via"@][0]);
        if current.len() > 0 {
            lemma_visible_bytes_text(h["via"@][0]);
            lemma_visible_text_encoding(current);
            lemma_visible_text_encoding(", "@);
            lemma_encode_utf8_concat(current, ", "@);
            lemma_header_value_concat(encode_utf8(current), encode_utf8(", "@));
            lemma_encode_utf8_concat(current + ", "@, v);
            lemma_header_value_concat(encode_utf8(current + ", "@), encode_utf8(v));
        }
    }
}

/// Every header that a proxied response carries, but `Set-Cookie`, reaches
/// the client unchanged, unless it is one of the three CORS headers that the
/// proxy sets: `Access-Control-Allow-Origin` is the allowed origin,
/// `Access-Control-Allow-Credentials` is `true`, and, when the names are
/// valid header names, `Access-Control-Expose-Headers` names the headers
/// passed on from the response in their order (read back as a list, it gives
/// those names).
pub proof fn law_proxied_response_headers(
    fields: HeaderFields,
    names: Seq<Seq<char>>,
    origin: Seq<char>,
)
    requires
        is_well_formed(fields, names),
        is_header_value(encode_utf8(origin)),
    ensures
        ({
            let sent = proxied_response_fields(fields, names, origin);
            let passed = names_without(names, "set-cookie"@);
            &&& !sent.contains_key("set-cookie"@)
            &&& sent["access-control-allow-origin"@] == seq![encode_utf8(origin)]
            &&& sent["access-control-allow-credentials"@] == seq![encode_utf8("true"@)]
            &&& (exists|key: Seq<char>| key != "set-cookie"@ && #[trigger] fields.contains_key(key))
                && (forall|key: Seq<char>| #[trigger] fields.contains_key(key) ==> header_key(key) == Some(key))
                ==> {
                &&& sent["access-control-expose-headers"@] == seq![
                    encode_utf8(join_with(passed, ", "@)),
                ]
                &&& split_on(join_with(passed, ", "@), ',').map_values(|p: Seq<char>| trim_ws(p))
                    == passed
                &&& lists_each_once(passed, fields.remove("set-cookie"@))
            }
            &&& forall|key: Seq<char>|
                key != "set-cookie"@ && key != "access-control-allow-origin"@ && key
                    != "access-control-allow-credentials"@ && key != "access-control-expose-headers"@
                    ==> {
                    &&& #[trigger] sent.contains_key(key) == fields.contains_key(key)
                    &&& fields.contains_key(key) ==> sent[key] == fields[key]
                }
        }),
{
    reveal_strlit("true");
    reveal_strlit("set-cookie");
    reveal_strlit("access-control-allow-origin");
    reveal_strlit("access-control-allow-credentials");
    reveal_strlit("access-control-expose-headers");
    assert("set-cookie"@.len() == 10);
    assert("access-control-allow-origin"@.len() == 27);
    assert("access-control-allow-credentials"@.len() == 32);
    assert("access-control-expose-headers"@.len() == 29);
    lemma_visible_text_encoding("true"@);
    let passed = names_without(names, "set-cookie"@);
    lemma_names_without(names, "set-cookie"@);
    if (exists|key: Seq<char>| key != "set-cookie"@ && #[trigger] fields.contains_key(key))
        && (forall|key: Seq<char>| #[trigger] fields.contains_key(key) ==> header_key(key) == Some(key)) {
        let key = choose|key: Seq<char>| key != "set-cookie"@ && #[trigger] fields.contains_key(key);
        assert(passed.contains(key));
        assert(passed.len() >= 1);
        assert(are_header_names(passed)) by {
            assert forall|i: int, j: int| 0 <= i < passed.len() && 0 <= j < passed[i].len() implies is_header_name_char(
                #[trigger] passed[i][j],
            ) by {
                assert(names.contains(passed[i]));
                assert(fields.contains_key(passed[i]));
                assert(header_key(passed[i]) == Some(passed[i]));
            }
        }
        lemma_join_name_list_chars(passed);
        lemma_name_list_is_header_value(join_with(passed, ", "@));
        law_name_list_round_trip(passed);
        assert(lists_each_once(passed, fields.remove("set-cookie"@))) by {
            lemma_names_without_no_duplicates(names, "set-cookie"@);
            assert forall|i: int| 0 <= i < passed.len() implies fields.remove("set-cookie"@).contains_key(
                #[trigger] passed[i],
            ) by {
                assert(names.contains(passed[i]) && passed[i] != "set-cookie"@);
                assert(fields.contains_key(passed[i]));
            }
            assert forall|k: Seq<char>| #[trigger] fields.remove("set-cookie"@).contains_key(k) implies exists|i: int|
                0 <= i < passed.len() && #[trigger] passed[i] == k by {
                assert(passed.contains(k));
            }
        }
    }
}

/// A preflight is answered allowing exactly the method and headers that
/// were asked for, the allowed origin and credentials, and nothing else.
pub proof fn law_preflight_allows_what_was_asked(
    allow_methods: Seq<char>,
    allow_headers: Seq<char>,
    origin: Seq<char>,
)
    requires
        is_header_value(encode_utf8(allow_methods)),
        is_header_value(encode_utf8(allow_headers)),
        is_header_value(encode_utf8(origin)),
    ensures
        preflight_response_fields(allow_methods, allow_headers, origin) == Map::<
            Seq<char>,
            Seq<Seq<u8>>,
        >::empty().insert("access-control-allow-methods"@, seq![encode_utf8(allow_methods)]).insert(
            "access-control-allow-headers"@,
            seq![encode_utf8(allow_headers)],
        ).insert("access-control-allow-origin"@, seq![encode_utf8(origin)]).insert(
            "access-control-allow-credentials"@,
            seq![encode_utf8("true"@)],
        ),
{
    reveal_strlit("true");
    lemma_visible_text_encoding("true"@);
}

/// Dropping the hop-by-hop headers twice is dropping them once.
pub proof fn law_connection_headers_dropped_once(fields: HeaderFields)
    ensures
        without_connection_headers(without_connection_headers(fields)) == without_connection_headers(
            fields,
        ),
{
    if fields.contains_key("connection"@) {
        lemma_without_headers(
            fields.remove("connection"@),
            connection_listed(fields["connection"@][0]),
            "connection"@,
        );
    }
}

proof fn lemma_visible_text_concat(a: Seq<char>, b: Seq<char>)
    requires
        is_visible_text(a),
        is_visible_text(b),
    ensures
        is_visible_text(a + b),
{
    assert forall|i: int| 0 <= i < (a + b).len() implies (' ' <= #[trigger] (a + b)[i] && (a + b)[i] <= '~')
        || (a + b)[i] == '\t' by {
        if i >= a.len() {
            assert((a + b)[i] == b[i - a.len()]);
        }
    }
}

/// Each proxy that a request passes adds its entry to `Via` after those of
/// the proxies before it: sent on twice, with visible-ASCII pseudonyms, the
/// first `Via` value ends with `2.0 <first>, 2.0 <second>`.
pub proof fn law_via_records_each_hop(fields: HeaderFields, first: Seq<char>, second: Seq<char>)
    requires
        is_stored_fields(fields),
        is_visible_text(first),
        is_visible_text(second),
    ensures
        forwarded_fields(fields, first) matches Some(once) ==> {
            &&& forwarded_fields(once, second) matches Some(twice)
            &&& exists|earlier: Seq<char>|
                twice["via"@][0] == encode_utf8(
                    earlier + via_entry(first) + ", "@ + via_entry(second),
                )
        },
{
    reveal_strlit("2.0 ");
    reveal_strlit(", ");
    reveal_strlit("via");
    reveal_strlit("connection");
    reveal_strlit("cookie");
    reveal_strlit("host");
    assert("host"@ != "via"@) by {
        assert("host"@.len() == 4);
    }
    assert("cookie"@ != "via"@) by {
        assert("cookie"@.len() == 6);
    }
    assert("connection"@ != "via"@) by {
        assert("connection"@.len() == 10);
    }
    law_forwarded_request_headers(fields, first);
    if let Some(once) = forwarded_fields(fields, first) {
        let e1 = via_entry(first);
        let e2 = via_entry(second);
        lemma_visible_text_concat("2.0 "@, first);
        lemma_visible_text_concat("2.0 "@, second);
        let h1 = without_connection_headers(fields).remove("cookie"@).remove("host"@);
        if fields.contains_key("connection"@) {
            lemma_without_headers(fields.remove("connection"@), connection_listed(fields["connection"@][0]), "via"@);
        }
        let earlier = if h1.contains_key("via"@) && value_text_or_empty(h1["via"@][0]).len() > 0 {
            value_text_or_empty(h1["via"@][0]) + ", "@
        } else {
            Seq::<char>::empty()
        };
        if h1.contains_key("via"@) {
            assert(h1["via"@].len() > 0);
            let current = value_text_or_empty(h1["via"@][0]);
            if current.len() > 0 {
                lemma_visible_bytes_text(h1["via"@][0]);
                lemma_visible_text_concat(current, ", "@);
            }
        }
        assert(is_visible_text(earlier));
        lemma_visible_text_concat(earlier, e1);
        assert(once["via"@].len() > 0);
        assert(once["via"@][0] == encode_utf8(earlier + e1)) by {
            assert(Seq::<char>::empty() + e1 =~= e1);
        }
        // The request sent on once has nothing left for the second proxy to drop.
        assert(without_connection_headers(once) == once);
        assert(once.remove("cookie"@) =~= once);
        assert(once.remove("host"@) =~= once);
        let text1 = earlier + e1;
        lemma_visible_text_encoding(text1);
        assert(value_text_or_empty(once["via"@][0]) == text1);
        assert(text1.len() > 0) by {
            assert(e1.len() >= 4);
        }
        lemma_visible_text_concat(text1, ", "@);
        lemma_visible_text_concat(text1 + ", "@, e2);
        lemma_visible_text_encoding(text1 + ", "@ + e2);
        assert(earlier + e1 + ", "@ + e2 == text1 + ", "@ + e2);
    }
}

/// A path names a URL to proxy exactly when `Url::parse` accepts the path
/// without its leading slashes, and nothing else, with the scheme `http` or
/// `https`. That URL, with nothing added but the pairs of a non-empty query,
/// is the one proxied; any other path names none.
pub proof fn law_path_is_the_parsed_url(path: Seq<char>, query: Seq<char>)
    ensures
        spec_is_url_path(path) == (parsed_url(trim_start_char(path, '/')) matches Some(u) && (u.1
            == "http"@ || u.1 == "https"@)),
        parsed_url(trim_start_char(path, '/')) matches Some(u) ==> ((u.1 == "http"@ || u.1
            == "https"@) ==> spec_url_path(path, query) == Some(
            if query.len() == 0 {
                u
            } else {
                url_with_query_pairs(u, query)
            },
        )),
        !(parsed_url(trim_start_char(path, '/')) matches Some(u) && (u.1 == "http"@ || u.1
            == "https"@)) ==> spec_url_path(path, query) is None,
{
}

/// A header's text, as the routes read it, is its first value when that is
/// visible ASCII: absent headers have none, others are not text.
pub proof fn law_header_text_is_the_first_value(fields: HeaderFields, name: Seq<char>)
    requires
        header_key(name) == Some(name),
    ensures
        !fields.contains_key(name) ==> header_text_of(fields, name) is None,
        fields.contains_key(name) && is_visible_ascii(fields[name][0]) ==> header_text_of(fields, name)
            == Some(Some(ascii_text(fields[name][0]))),
        fields.contains_key(name) && !is_visible_ascii(fields[name][0]) ==> header_text_of(
            fields,
            name,
        ) == Some(None::<Seq<char>>),
{
}

/// Every `OPTIONS` request for a path that names an `http` or `https` URL
/// and that carries `Access-Control-Request-Method` and
/// `Access-Control-Request-Headers` as text, whatever they say, is a
/// preflight (and `route` answers it, allowing exactly those two texts);
/// no other request is.
pub proof fn law_preflight_is_any_options_request_asking(
    method: Seq<char>,
    path: Seq<char>,
    fields: HeaderFields,
)
    ensures
        is_preflight(method, path, fields) == {
            &&& method == "OPTIONS"@
            &&& parsed_url(trim_start_char(path, '/')) matches Some(u) && (u.1 == "http"@ || u.1
                == "https"@)
            &&& fields.contains_key("access-control-request-method"@)
            &&& is_visible_ascii(fields["access-control-request-method"@][0])
            &&& fields.contains_key("access-control-request-headers"@)
            &&& is_visible_ascii(fields["access-control-request-headers"@][0])
        },
        is_preflight(method, path, fields) ==> {
            &&& header_text_of(fields, "access-control-request-method"@) == Some(
                Some(ascii_text(fields["access-control-request-method"@][0])),
            )
            &&& header_text_of(fields, "access-control-request-headers"@) == Some(
                Some(ascii_text(fields["access-control-request-headers"@][0])),
            )
        },
{
    crate::headers::lemma_known_header_names();
    law_path_is_the_parsed_url(path, Seq::empty());
    law_header_text_is_the_first_value(fields, "access-control-request-method"@);
    law_header_text_is_the_first_value(fields, "access-control-request-headers"@);
}

/// The origin that answers allow is the request's `Origin` text exactly when
/// its first value is visible ASCII, `*` when it has no `Origin`; a request
/// whose `Origin` is not text is refused.
pub proof fn law_allowed_origin_is_the_request_origin(fields: HeaderFields)
    ensures
        !fields.contains_key("origin"@) ==> spec_cors_origin(fields) == Some("*"@),
        fields.contains_key("origin"@) && is_visible_ascii(fields["origin"@][0]) ==> spec_cors_origin(
            fields,
        ) == Some(ascii_text(fields["origin"@][0])),
        fields.contains_key("origin"@) && !is_visible_ascii(fields["origin"@][0]) ==> spec_cors_origin(
            fields,
        ) is None,
{
    crate::headers::lemma_known_header_names();
    law_header_text_is_the_first_value(fields, "origin"@);
}

/// The names that a `Connection` value lists, read literally: its text
/// split at each comma, each piece trimmed (a value that is not visible
/// ASCII lists none). `key` is looked up by one of them.
pub open spec fn connection_value_names_key(value: Seq<u8>, key: Seq<char>) -> bool {
    &&& is_visible_ascii(value)
    &&& exists|i: int|
        0 <= i < split_on(ascii_text(value), ',').len() && lookup_key(
            trim_ws(#[trigger] split_on(ascii_text(value), ',')[i]),
        ) == Some(key)
}

proof fn lemma_names_key_is_literal(value: Seq<u8>, key: Seq<char>)
    ensures
        names_key(connection_listed(value), key) == connection_value_names_key(value, key),
{
    let text = value_text_or_empty(value);
    let pieces = split_on(text, ',');
    let listed = connection_listed(value);
    assert(listed.len() == pieces.len());
    if !is_visible_ascii(value) {
        assert(pieces =~= seq![Seq::<char>::empty()]);
        assert(trim_ws(Seq::<char>::empty()) =~= Seq::<char>::empty());
        assert(encode_utf8(Seq::<char>::empty()) =~= Seq::<u8>::empty());
        assert(lookup_key(Seq::<char>::empty()) is None);
        if names_key(listed, key) {
            let i = choose|i: int| 0 <= i < listed.len() && lookup_key(#[trigger] listed[i]) == Some(key);
            assert(listed[i] == trim_ws(pieces[i]));
        }
    } else {
        if names_key(listed, key) {
            let i = choose|i: int| 0 <= i < listed.len() && lookup_key(#[trigger] listed[i]) == Some(key);
            assert(listed[i] == trim_ws(pieces[i]));
        }
        if connection_value_names_key(value, key) {
            let i = choose|i: int|
                0 <= i < pieces.len() && lookup_key(trim_ws(#[trigger] pieces[i])) == Some(key);
            assert(listed[i] == trim_ws(pieces[i]));
        }
    }
}

/// Removing the hop-by-hop headers drops `Connection` and exactly the
/// headers that its value names (split at commas, each name trimmed);
/// every other header keeps all its values.
pub proof fn law_connection_drops_only_what_it_lists(fields: HeaderFields)
    ensures
        !without_connection_headers(fields).contains_key("connection"@),
        forall|key: Seq<char>|
            fields.contains_key("connection"@) && connection_value_names_key(
                fields["connection"@][0],
                key,
            ) ==> !#[trigger] without_connection_headers(fields).contains_key(key),
        forall|key: Seq<char>|
            key != "connection"@ && !(fields.contains_key("connection"@)
                && connection_value_names_key(fields["connection"@][0], key)) ==> {
                &&& #[trigger] without_connection_headers(fields).contains_key(key)
                    == fields.contains_key(key)
                &&& fields.contains_key(key) ==> without_connection_headers(fields)[key]
                    == fields[key]
            },
{
    if fields.contains_key("connection"@) {
        let v = fields["connection"@][0];
        let base = fields.remove("connection"@);
        lemma_without_headers(base, connection_listed(v), "connection"@);
        assert forall|key: Seq<char>| connection_value_names_key(v, key) implies !#[trigger] without_connection_headers(
            fields,
        ).contains_key(key) by {
            lemma_names_key_is_literal(v, key);
            lemma_without_headers(base, connection_listed(v), key);
        }
        assert forall|key: Seq<char>| key != "connection"@ && !connection_value_names_key(v, key) implies {
            &&& #[trigger] without_connection_headers(fields).contains_key(key) == fields.contains_key(key)
            &&& fields.contains_key(key) ==> without_connection_headers(fields)[key] == fields[key]
        } by {
            lemma_names_key_is_literal(v, key);
            lemma_without_headers(base, connection_listed(v), key);
        }
    }
}

/// A forwarded request holds every header of the incoming one but
/// `Connection`, `Cookie`, `Host`, `Via` (which the proxy extends) and the
/// headers that the `Connection` value names, with all their values.
pub proof fn law_forwarding_keeps_unlisted_headers(fields: HeaderFields, host: Seq<char>)
    ensures
        forwarded_fields(fields, host) matches Some(sent) ==> forall|key: Seq<char>|
            key != "connection"@ && key != "cookie"@ && key != "host"@ && key != "via"@ && !(
            fields.contains_key("connection"@) && connection_value_names_key(
                fields["connection"@][0],
                key,
            )) ==> {
                &&& #[trigger] sent.contains_key(key) == fields.contains_key(key)
                &&& fields.contains_key(key) ==> sent[key] == fields[key]
            },
{
    law_connection_drops_only_what_it_lists(fields);
}

/// Trimming the leading `c`s removes a run of `c` at the front and nothing
/// else: what is left is a suffix of the text that does not start with `c`.
pub proof fn law_trim_start_removes_only_the_leading_run(s: Seq<char>, c: char)
    ensures
        exists|k: int|
            0 <= k <= s.len() && #[trigger] s.skip(k) == trim_start_char(s, c) && (forall|j: int|
                0 <= j < k ==> s[j] == c),
        trim_start_char(s, c).len() > 0 ==> trim_start_char(s, c)[0] != c,
    decreases s.len(),
{
    if s.len() > 0 && s[0] == c {
        let rest = s.drop_first();
        law_trim_start_removes_only_the_leading_run(rest, c);
        let k = choose|k: int|
            0 <= k <= rest.len() && #[trigger] rest.skip(k) == trim_start_char(rest, c) && (forall|j: int|
                0 <= j < k ==> rest[j] == c);
        assert(s.skip(k + 1) =~= rest.skip(k));
        assert forall|j: int| 0 <= j < k + 1 implies s[j] == c by {
            if j > 0 {
                assert(s[j] == rest[j - 1]);
            }
        }
    } else {
        assert(s.skip(0) =~= s);
    }
}

proof fn lemma_join_front(a: Seq<char>, rest: Seq<Seq<char>>, sep: Seq<char>)
    ensures
        join_with(seq![a] + rest, sep) == (if rest.len() == 0 {
            a
        } else {
            a + sep + join_with(rest, sep)
        }),
    decreases rest.len(),
{
    let t = seq![a] + rest;
    if rest.len() == 0 {
        assert(t =~= seq![a]);
    } else if rest.len() == 1 {
        assert(t.drop_last() =~= seq![a]);
        assert(t.last() == rest[0]);
        assert(join_with(t, sep) == join_with(t.drop_last(), sep) + sep + t.last());
        assert(join_with(rest, sep) == rest[0]);
    } else {
        assert(t.drop_last() =~= seq![a] + rest.drop_last());
        lemma_join_front(a, rest.drop_last(), sep);
        assert(t.last() == rest.last());
        assert(join_with(t, sep) == join_with(t.drop_last(), sep) + sep + t.last());
        assert(join_with(rest, sep) == join_with(rest.drop_last(), sep) + sep + rest.last());
        assert(a + sep + join_with(rest.drop_last(), sep) + sep + rest.last() =~= a + sep + (join_with(
            rest.drop_last(),
            sep,
        ) + sep + rest.last()));
    }
}

proof fn lemma_split_from_joins_back(s: Seq<char>, sep: char, cur: Seq<char>)
    ensures
        split_from(s, sep, cur).len() >= 1,
        join_with(split_from(s, sep, cur), seq![sep]) == cur + s,
        (forall|j: int| 0 <= j < cur.len() ==> cur[j] != sep) ==> forall|i: int, j: int|
            0 <= i < split_from(s, sep, cur).len() && 0 <= j < split_from(s, sep, cur)[i].len()
                ==> #[trigger] split_from(s, sep, cur)[i][j] != sep,
    decreases s.len(),
{
    if s.len() == 0 {
        assert(cur + s =~= cur);
    } else if s[0] == sep {
        let rest = split_from(s.drop_first(), sep, Seq::empty());
        lemma_split_from_joins_back(s.drop_first(), sep, Seq::empty());
        lemma_join_front(cur, rest, seq![sep]);
        assert(Seq::<char>::empty() + s.drop_first() =~= s.drop_first());
        assert(cur + seq![sep] + s.drop_first() =~= cur + s);
        let all = seq![cur] + rest;
        assert forall|i: int, j: int|
            (forall|j: int| 0 <= j < cur.len() ==> cur[j] != sep) && 0 <= i < all.len() && 0 <= j
                < all[i].len() implies #[trigger] all[i][j] != sep by {
            if i > 0 {
                assert(all[i] == rest[i - 1]);
                assert(rest[i - 1][j] != sep);
            }
        }
    } else {
        lemma_split_from_joins_back(s.drop_first(), sep, cur.push(s[0]));
        assert(cur.push(s[0]) + s.drop_first() =~= cur + s);
    }
}

/// Splitting a text at `sep` cuts it into pieces that hold no `sep` and
/// that, joined again with `sep`, give back the text: the one way to cut it.
pub proof fn law_split_joins_back(s: Seq<char>, sep: char)
    ensures
        join_with(split_on(s, sep), seq![sep]) == s,
        forall|i: int, j: int|
            0 <= i < split_on(s, sep).len() && 0 <= j < split_on(s, sep)[i].len()
                ==> #[trigger] split_on(s, sep)[i][j] != sep,
{
    lemma_split_from_joins_back(s, sep, Seq::empty());
    assert(Seq::<char>::empty() + s =~= s);
}

proof fn lemma_trim_start_ws_is_suffix(s: Seq<char>)
    ensures
        exists|k: int|
            0 <= k <= s.len() && #[trigger] s.skip(k) == trim_start_ws(s) && (forall|j: int|
                0 <= j < k ==> is_whitespace(s[j])),
        trim_start_ws(s).len() > 0 ==> !is_whitespace(trim_start_ws(s)[0]),
    decreases s.len(),
{
    if s.len() > 0 && is_whitespace(s[0]) {
        let rest = s.drop_first();
        lemma_trim_start_ws_is_suffix(rest);
        let k = choose|k: int|
            0 <= k <= rest.len() && #[trigger] rest.skip(k) == trim_start_ws(rest) && (forall|j: int|
                0 <= j < k ==> is_whitespace(rest[j]));
        assert(s.skip(k + 1) =~= rest.skip(k));
        assert forall|j: int| 0 <= j < k + 1 implies is_whitespace(s[j]) by {
            if j > 0 {
                assert(s[j] == rest[j - 1]);
            }
        }
    } else {
        assert(s.skip(0) =~= s);
    }
}

proof fn lemma_trim_end_ws_is_prefix(s: Seq<char>)
    ensures
        exists|k: int|
            0 <= k <= s.len() && #[trigger] s.take(k) == trim_end_ws(s) && (forall|j: int|
                k <= j < s.len() ==> is_whitespace(s[j])),
        trim_end_ws(s).len() > 0 ==> !is_whitespace(trim_end_ws(s).last()),
    decreases s.len(),
{
    if s.len() > 0 && is_whitespace(s.last()) {
        let rest = s.drop_last();
        lemma_trim_end_ws_is_prefix(rest);
        let k = choose|k: int|
            0 <= k <= rest.len() && #[trigger] rest.take(k) == trim_end_ws(rest) && (forall|j: int|
                k <= j < rest.len() ==> is_whitespace(rest[j]));
        assert(s.take(k) =~= rest.take(k));
        assert forall|j: int| k <= j < s.len() implies is_whitespace(s[j]) by {
            if j < s.len() - 1 {
                assert(s[j] == rest[j]);
            }
        }
    } else {
        assert(s.take(s.len() as int) =~= s);
    }
}

/// Trimming a text removes whitespace from its two ends and nothing else:
/// what is left is a slice of it that neither starts nor ends with
/// whitespace.
pub proof fn law_trim_removes_only_outer_whitespace(s: Seq<char>)
    ensures
        exists|a: int, b: int|
            0 <= a <= b <= s.len() && #[trigger] s.subrange(a, b) == trim_ws(s) && (forall|j: int|
                0 <= j < a ==> is_whitespace(s[j])) && (forall|j: int|
                b <= j < s.len() ==> is_whitespace(s[j])),
        trim_ws(s).len() > 0 ==> !is_whitespace(trim_ws(s)[0]) && !is_whitespace(
            trim_ws(s).last(),
        ),
{
    lemma_trim_start_ws_is_suffix(s);
    let t = trim_start_ws(s);
    let a = choose|k: int|
        0 <= k <= s.len() && #[trigger] s.skip(k) == trim_start_ws(s) && (forall|j: int|
            0 <= j < k ==> is_whitespace(s[j]));
    lemma_trim_end_ws_is_prefix(t);
    let m = choose|k: int|
        0 <= k <= t.len() && #[trigger] t.take(k) == trim_end_ws(t) && (forall|j: int|
            k <= j < t.len() ==> is_whitespace(t[j]));
    assert(s.subrange(a, a + m) =~= t.take(m));
    assert forall|j: int| a + m <= j < s.len() implies is_whitespace(s[j]) by {
        assert(s[j] == t[j - a]);
    }
    if trim_ws(s).len() > 0 {
        assert(trim_ws(s)[0] == t[0]);
    }
}

} // verus!
