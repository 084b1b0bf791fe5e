//! The model-directory response and the vendor error object: a `data`
//! array of entries with `id` strings, collected in order and sorted for
//! deterministic output, or an `error` object classified as an
//! authentication failure.

use vstd::prelude::*;
use vstd::string::StringSliceAdditionalSpecFns;
use vstd::multiset::Multiset;
use crate::error::ProviderError;
use crate::json::{JsonValue, get_field, json_get, json_of, json_parse};
use crate::model::str_field;
use crate::textutil::copy_bytes;

verus! {

/// The message of the error object `v` carries, when it carries one; a
/// malformed error object still reads as an error, with a stand-in text.
pub open spec fn error_message(v: JsonValue) -> Option<Seq<u8>> {
    match get_field(v, ("error").spec_bytes()) {
        Some(e) => Some(
            match str_field(e, ("message").spec_bytes()) {
                Some(m) => m,
                None => ("unknown error").spec_bytes(),
            },
        ),
        None => None,
    }
}

/// The vendor's error message, when the response carries an error object.
pub fn vendor_error(v: &JsonValue) -> (r: Option<Vec<u8>>)
    ensures
        match r {
            Some(m) => error_message(*v) == Some(m@),
            None => error_message(*v) is None,
        },
{
    match json_get(v, "error".as_bytes()) {
        Some(e) => match json_get(e, "message".as_bytes()) {
            Some(JsonValue::Str(s)) => Some(copy_bytes(s.as_slice())),
            _ => Some(copy_bytes("unknown error".as_bytes())),
        },
        None => None,
    }
}

/// Classifies a directly-returned error body, from either endpoint: a
/// vendor error object is an authentication failure carrying the vendor's
/// message; anything else is a transport failure carrying the body text.
pub fn classify_error_body(body: &[u8]) -> (r: ProviderError)
    ensures
        ({
            let j = json_of(body@);
            match r {
                ProviderError::Authentication(m) => {
                    &&& j matches Some(v)
                    &&& error_message(v) == Some(m@)
                },
                ProviderError::RequestFailed(m) => {
                    &&& (j matches Some(v) ==> error_message(v) is None)
                    &&& m@ == body@
                },
                _ => false,
            }
        }),
{
    match json_parse(body) {
        Some(v) => match vendor_error(&v) {
            Some(m) => ProviderError::Authentication(m),
            None => ProviderError::RequestFailed(copy_bytes(body)),
        },
        None => ProviderError::RequestFailed(copy_bytes(body)),
    }
}

/// The id of every entry that carries a string id, in order; entries
/// without a usable id are skipped.
pub open spec fn model_ids(entries: Seq<JsonValue>) -> Seq<Seq<u8>>
    decreases entries.len(),
{
    if entries.len() == 0 {
        Seq::empty()
    } else {
        match str_field(entries[0], ("id").spec_bytes()) {
            Some(s) => seq![s] + model_ids(entries.drop_first()),
            None => model_ids(entries.drop_first()),
        }
    }
}

/// Lexicographic order on byte strings.
pub open spec fn bytes_le(a: Seq<u8>, b: Seq<u8>) -> bool
    decreases a.len(),
{
    if a.len() == 0 {
        true
    } else if b.len() == 0 {
        false
    } else if a[0] < b[0] {
        true
    } else if a[0] > b[0] {
        false
    } else {
        bytes_le(a.drop_first(), b.drop_first())
    }
}

/// Nondecreasing in the lexicographic order.
pub open spec fn sorted_bytes(s: Seq<Seq<u8>>) -> bool {
    forall|i: int, j: int| 0 <= i < j < s.len() ==> bytes_le(s[i], s[j])
}

/// The byte views of a run of owned byte strings.
pub open spec fn ids_view(v: Seq<Vec<u8>>) -> Seq<Seq<u8>> {
    v.map_values(|x: Vec<u8>| x@)
}

pub proof fn lemma_bytes_le_total(a: Seq<u8>, b: Seq<u8>)
    ensures
        bytes_le(a, b) || bytes_le(b, a),
    decreases a.len(),
{
    if a.len() > 0 && b.len() > 0 && a[0] == b[0] {
        lemma_bytes_le_total(a.drop_first(), b.drop_first());
    }
}

pub proof fn lemma_bytes_le_trans(a: Seq<u8>, b: Seq<u8>, c: Seq<u8>)
    requires
        bytes_le(a, b),
        bytes_le(b, c),
    ensures
        bytes_le(a, c),
    decreases a.len(),
{
    if a.len() > 0 && b.len() > 0 && c.len() > 0 && a[0] == b[0] && b[0] == c[0] {
        lemma_bytes_le_trans(a.drop_first(), b.drop_first(), c.drop_first());
    }
}

proof fn lemma_bytes_le_skip(a: Seq<u8>, b: Seq<u8>, i: int)
    requires
        0 <= i <= a.len(),
        i <= b.len(),
        forall|j: int| 0 <= j < i ==> a[j] == b[j],
    ensures
        bytes_le(a, b) == bytes_le(a.skip(i), b.skip(i)),
    decreases i,
{
    if i == 0 {
        assert(a.skip(0) =~= a);
        assert(b.skip(0) =~= b);
    } else {
        assert(a[0] == b[0]);
        lemma_bytes_le_skip(a.drop_first(), b.drop_first(), i - 1);
        assert(a.drop_first().skip(i - 1) =~= a.skip(i));
        assert(b.drop_first().skip(i - 1) =~= b.skip(i));
    }
}

/// Lexicographic comparison of two byte strings.
pub fn le_bytes(a: &[u8], b: &[u8]) -> (r: bool)
    ensures
        r == bytes_le(a@, b@),
{
    let mut i: usize = 0;
    while i < a.len() && i < b.len()
        invariant
            0 <= i <= a@.len(),
            i <= b@.len(),
            forall|j: int| 0 <= j < i ==> a@[j] == b@[j],
        decreases a@.len() - i,
    {
        proof {
            lemma_bytes_le_skip(a@, b@, i as int);
            assert(a@.skip(i as int)[0] == a@[i as int]);
            assert(b@.skip(i as int)[0] == b@[i as int]);
        }
        if a[i] < b[i] {
            return true;
        }
        if a[i] > b[i] {
            return false;
        }
        i = i + 1;
    }
    proof {
        lemma_bytes_le_skip(a@, b@, i as int);
        if i >= a@.len() {
            assert(a@.skip(i as int) =~= Seq::<u8>::empty());
        } else {
            assert(b@.skip(i as int) =~= Seq::<u8>::empty());
            assert(a@.skip(i as int).len() > 0);
        }
    }
    a.len() <= b.len()
}

proof fn lemma_insert_to_multiset(s: Seq<Seq<u8>>, p: int, x: Seq<u8>)
    requires
        0 <= p <= s.len(),
    ensures
        s.insert(p, x).to_multiset() =~= s.to_multiset().insert(x),
{
    broadcast use vstd::seq_lib::group_to_multiset_ensures;
    broadcast use vstd::multiset::group_multiset_axioms;

    let t = s.insert(p, x);
    assert(t.remove(p) =~= s);
    assert(t[p] == x);
    assert(t.remove(p).to_multiset() =~= t.to_multiset().remove(t[p]));
    assert(t.contains(x));
    assert(t.to_multiset().count(x) > 0);
    assert(t.to_multiset() =~= s.to_multiset().insert(x));
}

/// Sorts in place, keeping exactly the same strings.
fn sort_ids(ids: &mut Vec<Vec<u8>>)
    ensures
        sorted_bytes(ids_view(final(ids)@)),
        ids_view(final(ids)@).to_multiset() == ids_view(old(ids)@).to_multiset(),
{
    broadcast use vstd::seq_lib::group_to_multiset_ensures;
    broadcast use vstd::multiset::group_multiset_axioms;

    let ghost orig = ids_view(ids@);
    if ids.len() < 2 {
        return;
    }
    let mut i: usize = 1;
    while i < ids.len()
        invariant
            1 <= i <= ids@.len(),
            sorted_bytes(ids_view(ids@).take(i as int)),
            ids_view(ids@).to_multiset() == orig.to_multiset(),
        decreases ids@.len() - i,
    {
        let ghost v0 = ids_view(ids@);
        let x = ids.remove(i);
        proof {
            assert(ids_view(ids@) =~= v0.remove(i as int));
        }
        let mut p: usize = 0;
        while p < i && !le_bytes(x.as_slice(), ids[p].as_slice())
            invariant
                0 <= p <= i,
                i < v0.len(),
                x@ == v0[i as int],
                ids_view(ids@) == v0.remove(i as int),
                ids@.len() == v0.len() - 1,
                forall|k: int| 0 <= k < p ==> !bytes_le(x@, v0[k]),
            decreases i - p,
        {
            proof {
                assert(ids@[p as int]@ == ids_view(ids@)[p as int]);
                assert(v0.remove(i as int)[p as int] == v0[p as int]);
            }
            p = p + 1;
        }
        proof {
            if p < i {
                assert(ids@[p as int]@ == ids_view(ids@)[p as int]);
                assert(v0.remove(i as int)[p as int] == v0[p as int]);
                assert(bytes_le(x@, v0[p as int]));
            }
        }
        let ghost w = ids_view(ids@);
        ids.insert(p, x);
        proof {
            broadcast use vstd::seq_lib::group_to_multiset_ensures;
            broadcast use vstd::multiset::group_multiset_axioms;

            let v1 = ids_view(ids@);
            assert(v1 =~= w.insert(p as int, x@));
            // the run holds the same strings as before
            lemma_insert_to_multiset(w, p as int, x@);
            assert(v0.remove(i as int).to_multiset() =~= v0.to_multiset().remove(v0[i as int]));
            assert(w.to_multiset() =~= v0.to_multiset().remove(x@));
            assert(v0.contains(x@));
            assert(v0.to_multiset().count(x@) > 0);
            assert(v1.to_multiset() =~= v0.to_multiset());
            // the sorted prefix has grown by one
            let sorted0 = v0.take(i as int);
            assert forall|s: int, t: int| 0 <= s < t < i + 1 implies bytes_le(v1[s], v1[t]) by {
                assert(forall|k: int| 0 <= k < p ==> v1[k] == sorted0[k]);
                assert(v1[p as int] == x@);
                assert(forall|k: int| p < k <= i ==> v1[k] == v0.remove(i as int)[k - 1]);
                assert(forall|k: int| p < k <= i ==> v1[k] == sorted0[k - 1]);
                if t < p {
                    assert(bytes_le(sorted0[s], sorted0[t]));
                } else if t == p {
                    assert(!bytes_le(x@, v0[s]));
                    lemma_bytes_le_total(x@, v0[s]);
                } else if s == p {
                    assert(bytes_le(x@, v0[p as int]));
                    if t == p + 1 {
                        assert(v1[t] == sorted0[p as int]);
                    } else {
                        assert(bytes_le(sorted0[p as int], sorted0[t - 1]));
                        lemma_bytes_le_trans(x@, sorted0[p as int], sorted0[t - 1]);
                    }
                } else if s < p {
                    assert(bytes_le(sorted0[s], sorted0[t - 1]));
                } else {
                    assert(bytes_le(sorted0[s - 1], sorted0[t - 1]));
                }
            }
            assert(sorted_bytes(v1.take(i + 1)));
        }
        i = i + 1;
    }
    proof {
        assert(ids_view(ids@).take(ids@.len() as int) =~= ids_view(ids@));
        if ids@.len() == 0 {
            assert(sorted_bytes(ids_view(ids@)));
        }
    }
}

/// Parses the directory response.  An error object is an authentication
/// failure; a missing or non-array `data` field is a malformed-response
/// failure, distinct from a transport failure; otherwise every usable id
/// is returned, sorted.
pub fn parse_models_response(body: &[u8]) -> (r: Result<Vec<Vec<u8>>, ProviderError>)
    ensures
        ({
            let j = json_of(body@);
            match r {
                Ok(ids) => {
                    &&& j matches Some(v)
                    &&& error_message(v) is None
                    &&& get_field(v, ("data").spec_bytes()) matches Some(JsonValue::Arr(a))
                    &&& sorted_bytes(ids_view(ids@))
                    &&& ids_view(ids@).to_multiset() == model_ids(a@).to_multiset()
                },
                Err(ProviderError::RequestFailed(m)) => {
                    &&& j is None
                    &&& m@ == ("response body is not valid JSON").spec_bytes()
                },
                Err(ProviderError::Authentication(m)) => {
                    &&& j matches Some(v)
                    &&& error_message(v) == Some(m@)
                },
                Err(ProviderError::UsageError(m)) => {
                    &&& j matches Some(v)
                    &&& error_message(v) is None
                    &&& !(get_field(v, ("data").spec_bytes()) matches Some(JsonValue::Arr(_)))
                    &&& m@ == ("Missing data field in JSON response").spec_bytes()
                },
                Err(_) => false,
            }
        }),
{
    match json_parse(body) {
        None => Err(
            ProviderError::RequestFailed(copy_bytes("response body is not valid JSON".as_bytes())),
        ),
        Some(v) => {
            match vendor_error(&v) {
                Some(m) => {
                    return Err(ProviderError::Authentication(m));
                },
                None => {},
            }
            match json_get(&v, "data".as_bytes()) {
                Some(arr) => match arr {
                    JsonValue::Arr(a) => {
                        let ghost goal = model_ids(a@);
                        let mut ids: Vec<Vec<u8>> = Vec::new();
                        proof {
                            assert(a@.skip(0) =~= a@);
                            assert(ids_view(ids@) =~= Seq::<Seq<u8>>::empty());
                        }
                        let mut i: usize = 0;
                        while i < a.len()
                            invariant
                                0 <= i <= a@.len(),
                                goal == model_ids(a@),
                                goal == ids_view(ids@) + model_ids(a@.skip(i as int)),
                            decreases a@.len() - i,
                        {
                            let ghost before = ids_view(ids@);
                            proof {
                                assert(a@.skip(i as int)[0] == a@[i as int]);
                                assert(a@.skip(i as int).drop_first() =~= a@.skip(i + 1));
                            }
                            match json_get(&a[i], "id".as_bytes()) {
                                Some(JsonValue::Str(s)) => {
                                    ids.push(copy_bytes(s.as_slice()));
                                    proof {
                                        assert(ids_view(ids@) =~= before.push(s@));
                                        assert(before + (seq![s@] + model_ids(a@.skip(i + 1)))
                                            =~= before.push(s@) + model_ids(a@.skip(i + 1)));
                                    }
                                },
                                _ => {},
                            }
                            i = i + 1;
                        }
                        proof {
                            assert(model_ids(a@.skip(a@.len() as int)) =~= Seq::<Seq<u8>>::empty());
                            assert(goal =~= ids_view(ids@));
                        }
                        sort_ids(&mut ids);
                        Ok(ids)
                    },
                    _ => Err(
                        ProviderError::UsageError(
                            copy_bytes("Missing data field in JSON response".as_bytes()),
                        ),
                    ),
                },
                None => Err(
                    ProviderError::UsageError(
                        copy_bytes("Missing data field in JSON response".as_bytes()),
                    ),
                ),
            }
        },
    }
}

} // verus!
