//! What the proxy passes back of the response it got: every header but
//! `Set-Cookie`, in the order the response gave them.

use vstd::prelude::*;
use warp::http::header::{HeaderMap, HeaderName, HeaderValue};
use crate::headers::{
    HeaderFields, has_room, header_fields, header_map_append, header_map_get_all, header_map_keys,
    header_map_new, header_name_as_str, header_name_text, header_names, header_value_bytes,
    is_stored_name, is_well_formed, is_well_formed_map, with_name,
};
use crate::text::text_eq;

verus! {

/// The names without `key`, in the same order.
pub open spec fn names_without(names: Seq<Seq<char>>, key: Seq<char>) -> Seq<Seq<char>>
    decreases names.len(),
{
    if names.len() == 0 {
        names
    } else {
        let rest = names_without(names.drop_last(), key);
        if names.last() == key {
            rest
        } else {
            rest.push(names.last())
        }
    }
}

/// The fields of `fields` under the names in `names`, but `key`.
pub open spec fn fields_of(fields: HeaderFields, names: Seq<Seq<char>>, key: Seq<char>) -> HeaderFields
    decreases names.len(),
{
    if names.len() == 0 {
        Map::empty()
    } else {
        let rest = fields_of(fields, names.drop_last(), key);
        if names.last() == key {
            rest
        } else {
            rest.insert(names.last(), fields[names.last()])
        }
    }
}

proof fn lemma_fields_of(fields: HeaderFields, names: Seq<Seq<char>>, key: Seq<char>)
    ensures
        forall|k: Seq<char>|
            #[trigger] fields_of(fields, names, key).contains_key(k) <==> names.contains(k) && k != key,
        forall|k: Seq<char>|
            #[trigger] fields_of(fields, names, key).contains_key(k) ==> fields_of(fields, names, key)[k]
                == fields[k],
        fields_of(fields, names, key).dom().finite(),
        fields_of(fields, names, key).dom().len() <= names.len(),
    decreases names.len(),
{
    if names.len() > 0 {
        let init = names.drop_last();
        lemma_fields_of(fields, init, key);
        assert forall|k: Seq<char>| names.contains(k) <==> init.contains(k) || k == names.last() by {
            if names.contains(k) {
                let i = choose|i: int| 0 <= i < names.len() && names[i] == k;
                if i < names.len() - 1 {
                    assert(init[i] == k);
                }
            }
            if init.contains(k) {
                let i = choose|i: int| 0 <= i < init.len() && init[i] == k;
                assert(names[i] == k);
            }
            if k == names.last() {
                assert(names[names.len() - 1] == k);
            }
        }
        let rest = fields_of(fields, init, key);
        if names.last() != key {
            assert(rest.insert(names.last(), fields[names.last()]).dom() =~= rest.dom().insert(
                names.last(),
            ));
        }
    } else {
        assert(fields_of(fields, names, key).dom() =~= Set::empty());
    }
}

/// `names_without` keeps exactly the names other than `key`.
pub proof fn lemma_names_without(names: Seq<Seq<char>>, key: Seq<char>)
    ensures
        forall|k: Seq<char>|
            #[trigger] names_without(names, key).contains(k) <==> names.contains(k) && k != key,
        forall|i: int|
            0 <= i < names_without(names, key).len() ==> names.contains(
                #[trigger] names_without(names, key)[i],
            ) && names_without(names, key)[i] != key,
    decreases names.len(),
{
    if names.len() > 0 {
        let init = names.drop_last();
        let last = names.last();
        lemma_names_without(init, key);
        let rest = names_without(init, key);
        let out = names_without(names, key);
        assert forall|k: Seq<char>| names.contains(k) <==> (init.contains(k) || k == last) by {
            if names.contains(k) {
                let i = choose|i: int| 0 <= i < names.len() && names[i] == k;
                if i < names.len() - 1 {
                    assert(init[i] == k);
                }
            }
            if init.contains(k) {
                let i = choose|i: int| 0 <= i < init.len() && init[i] == k;
                assert(names[i] == k);
            }
            if k == last {
                assert(names[names.len() - 1] == k);
            }
        }
        if last == key {
            assert(out == rest);
            assert forall|k: Seq<char>| #[trigger] out.contains(k) <==> names.contains(k) && k != key by {
                assert(rest.contains(k) <==> init.contains(k) && k != key);
            }
            assert forall|i: int| 0 <= i < out.len() implies names.contains(#[trigger] out[i]) && out[i] != key by {
                assert(init.contains(rest[i]));
            }
        } else {
            assert(out == rest.push(last));
            assert forall|k: Seq<char>| #[trigger] out.contains(k) <==> names.contains(k) && k != key by {
                assert(rest.contains(k) <==> init.contains(k) && k != key);
                if out.contains(k) {
                    let i = choose|i: int| 0 <= i < out.len() && out[i] == k;
                    if i < rest.len() {
                        assert(rest[i] == k);
                        assert(rest.contains(k));
                    }
                }
                if rest.contains(k) {
                    let i = choose|i: int| 0 <= i < rest.len() && rest[i] == k;
                    assert(out[i] == k);
                }
                if k == last {
                    assert(out[rest.len() as int] == k);
                }
            }
            assert forall|i: int| 0 <= i < out.len() implies names.contains(#[trigger] out[i]) && out[i] != key by {
                if i < rest.len() {
                    assert(out[i] == rest[i]);
                    assert(init.contains(rest[i]));
                } else {
                    assert(out[i] == last);
                }
            }
        }
    }
}

/// Leaving a name out keeps the names distinct.
pub proof fn lemma_names_without_no_duplicates(names: Seq<Seq<char>>, key: Seq<char>)
    requires
        names.no_duplicates(),
    ensures
        names_without(names, key).no_duplicates(),
    decreases names.len(),
{
    if names.len() > 0 {
        let init = names.drop_last();
        let last = names.last();
        assert(init.no_duplicates());
        lemma_names_without_no_duplicates(init, key);
        lemma_names_without(init, key);
        let rest = names_without(init, key);
        if last != key {
            let out = rest.push(last);
            assert(!init.contains(last)) by {
                if init.contains(last) {
                    let i = choose|i: int| 0 <= i < init.len() && init[i] == last;
                    assert(names[i] == names[names.len() - 1]);
                }
            }
            assert(!rest.contains(last));
            assert forall|i: int, j: int| 0 <= i < out.len() && 0 <= j < out.len() && i != j
                implies out[i] != out[j] by {
                if i == rest.len() {
                    assert(rest[j] != last) by {
                        if rest[j] == last {
                            assert(rest.contains(last));
                        }
                    }
                } else if j == rest.len() {
                    assert(rest[i] != last) by {
                        if rest[i] == last {
                            assert(rest.contains(last));
                        }
                    }
                } else {
                    assert(out[i] == rest[i] && out[j] == rest[j]);
                }
            }
        }
    }
}

proof fn lemma_take_step<A>(s: Seq<A>, i: int)
    requires
        0 <= i < s.len(),
    ensures
        s.take(i + 1).drop_last() == s.take(i),
        s.take(i + 1).last() == s[i],
{
    assert(s.take(i + 1).drop_last() =~= s.take(i));
}

/// Drops the `Set-Cookie` headers of a response that is passed back; every
/// other header keeps its values and its place. The map is rebuilt name by
/// name, so it needs room for one name more than it holds.
pub fn strip_set_cookie(headers: &mut HeaderMap<HeaderValue>)
    requires
        has_room(header_fields(*old(headers)), 1),
    ensures
        is_well_formed_map(*old(headers)),
        is_well_formed_map(*final(headers)),
        header_fields(*final(headers)) == header_fields(*old(headers)).remove("set-cookie"@),
        header_names(*final(headers)) == names_without(header_names(*old(headers)), "set-cookie"@),
{
    let ghost fields = header_fields(*headers);
    let ghost names = header_names(*headers);
    let keys = header_map_keys(headers);
    let ghost sc = "set-cookie"@;
    proof {
        names.unique_seq_to_set();
        assert(names.to_set() =~= fields.dom());
    }
    let mut kept = header_map_new();
    let mut i: usize = 0;
    assert(names.take(0) =~= Seq::<Seq<char>>::empty());
    while i < keys.len()
        invariant
            header_fields(*headers) == fields,
            header_names(*headers) == names,
            names == keys@.map_values(|k: HeaderName| header_name_text(k)),
            names.no_duplicates(),
            forall|key: Seq<char>| fields.contains_key(key) <==> #[trigger] names.contains(key),
            forall|j: int| 0 <= j < keys@.len() ==> is_stored_name(header_name_text(#[trigger] keys@[j])),
            has_room(fields, 1),
            names.len() == fields.dom().len(),
            sc == "set-cookie"@,
            i <= keys.len(),
            is_well_formed_map(kept),
            header_fields(kept) == fields_of(fields, names.take(i as int), sc),
            header_names(kept) == names_without(names.take(i as int), sc),
            forall|j: int| 0 <= j < i ==> fields[#[trigger] names[j]].len() > 0,
        decreases keys.len() - i,
    {
        let name = &keys[i];
        let ghost n = header_name_text(*name);
        assert(n == names[i as int]);
        let mut values = header_map_get_all(headers, name);
        assert(fields.contains_key(n)) by {
            assert(names.contains(n));
        }
        let ghost vals = fields[n];
        let ghost prev_fields = header_fields(kept);
        let ghost prev_names = header_names(kept);
        proof {
            lemma_take_step(names, i as int);
            lemma_fields_of(fields, names.take(i as int), sc);
            lemma_names_without(names.take(i as int), sc);
            assert(!names.take(i as int).contains(n)) by {
                if names.take(i as int).contains(n) {
                    let j = choose|j: int| 0 <= j < i && names.take(i as int)[j] == n;
                    assert(names[j] == names[i as int]);
                }
            }
            assert(!prev_names.contains(n));
        }
        if !text_eq(header_name_as_str(name), "set-cookie") {
            let mut j: usize = 0;
            let count = values.len();
            while values.len() > 0
                invariant
                    header_fields(*headers) == fields,
                    header_names(*headers) == names,
                    n == header_name_text(*name),
                    vals == fields[n],
                    vals.len() == count,
                    count > 0,
                    j + values@.len() == count,
                    values@.map_values(|v: HeaderValue| header_value_bytes(v)) == vals.skip(j as int),
                    !prev_fields.contains_key(n),
                    !prev_names.contains(n),
                    prev_fields.dom().finite(),
                    prev_fields.dom().len() <= i,
                    i < fields.dom().len(),
                    has_room(fields, 1),
                    is_well_formed_map(kept),
                    j == 0 ==> header_fields(kept) == prev_fields && header_names(kept) == prev_names,
                    j > 0 ==> header_fields(kept) == prev_fields.insert(n, vals.take(j as int))
                        && header_names(kept) == prev_names.push(n),
                decreases values.len(),
            {
                let ghost before = values@;
                let v = values.remove(0);
                proof {
                    assert(before.map_values(|v: HeaderValue| header_value_bytes(v))[0] == header_value_bytes(before[0]));
                    assert(header_value_bytes(v) == vals[j as int]);
                    if j > 0 {
                        assert(header_fields(kept).dom() =~= prev_fields.dom().insert(n));
                    }
                }
                header_map_append(&mut kept, name, v);
                proof {
                    if j == 0 {
                        assert(vals.take(1) =~= seq![vals[0]]);
                        assert(with_name(prev_names, n) == prev_names.push(n));
                    } else {
                        assert(vals.take(j as int).push(vals[j as int]) =~= vals.take(j + 1));
                        assert(prev_fields.insert(n, vals.take(j as int)).insert(n, vals.take(j + 1))
                            =~= prev_fields.insert(n, vals.take(j + 1)));
                        assert(prev_names.push(n).contains(n)) by {
                            assert(prev_names.push(n)[prev_names.len() as int] == n);
                        }
                    }
                    assert(vals.skip(j as int).drop_first() =~= vals.skip(j + 1));
                    assert(values@.map_values(|v: HeaderValue| header_value_bytes(v)) =~= vals.skip(j + 1));
                }
                j = j + 1;
            }
            assert(vals.take(count as int) =~= vals);
        }
        i = i + 1;
    }
    proof {
        assert(names.take(keys.len() as int) =~= names);
        lemma_fields_of(fields, names, sc);
        assert(fields_of(fields, names, sc) =~= fields.remove(sc));
        assert forall|key: Seq<char>| #[trigger] fields.contains_key(key) implies is_stored_name(key)
            && fields[key].len() > 0 by {
            assert(names.contains(key));
            let j = choose|j: int| 0 <= j < names.len() && names[j] == key;
            assert(keys@.map_values(|k: HeaderName| header_name_text(k))[j] == header_name_text(keys@[j]));
        }
        assert(is_well_formed(fields, names));
    }
    *headers = kept;
}

} // verus!
