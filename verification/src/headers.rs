//! Header mappings, modeled as association lists of byte strings with
//! pairwise-distinct keys. Insertion is last-write-wins: a repeated key
//! replaces the stored value in place, a new key is appended, so iteration
//! order is the order of first insertion.
use vstd::prelude::*;

verus! {

/// Keys are pairwise distinct.
pub open spec fn hdr_wf(hs: Seq<(Seq<u8>, Seq<u8>)>) -> bool {
    forall|i: int, j: int| 0 <= i < j < hs.len() ==> hs[i].0 != hs[j].0
}

/// The value stored at the first entry with key `k`, when there is one.
pub open spec fn hdr_lookup(hs: Seq<(Seq<u8>, Seq<u8>)>, k: Seq<u8>) -> Option<Seq<u8>>
    decreases hs.len(),
{
    if hs.len() == 0 {
        None
    } else if hs[0].0 == k {
        Some(hs[0].1)
    } else {
        hdr_lookup(hs.drop_first(), k)
    }
}

pub open spec fn hdr_has(hs: Seq<(Seq<u8>, Seq<u8>)>, k: Seq<u8>) -> bool {
    hdr_lookup(hs, k) is Some
}

/// Mapping update: replaces the value at the first entry with key `k`,
/// or appends a new entry when `k` is absent.
pub open spec fn hdr_insert(hs: Seq<(Seq<u8>, Seq<u8>)>, k: Seq<u8>, v: Seq<u8>) -> Seq<
    (Seq<u8>, Seq<u8>),
>
    decreases hs.len(),
{
    if hs.len() == 0 {
        seq![(k, v)]
    } else if hs[0].0 == k {
        seq![(k, v)] + hs.drop_first()
    } else {
        seq![hs[0]] + hdr_insert(hs.drop_first(), k, v)
    }
}

pub proof fn lemma_hdr_insert_wf(hs: Seq<(Seq<u8>, Seq<u8>)>, k: Seq<u8>, v: Seq<u8>)
    requires
        hdr_wf(hs),
    ensures
        hdr_wf(hdr_insert(hs, k, v)),
    decreases hs.len(),
{
    if hs.len() == 0 {
    } else if hs[0].0 == k {
        assert forall|i: int, j: int|
            0 <= i < j < hdr_insert(hs, k, v).len() implies hdr_insert(hs, k, v)[i].0
            != hdr_insert(hs, k, v)[j].0 by {
            assert(hdr_insert(hs, k, v)[i].0 == hs[i].0);
            assert(hdr_insert(hs, k, v)[j].0 == hs[j].0);
        }
    } else {
        assert(hdr_wf(hs.drop_first())) by {
            assert(forall|i: int, j: int|
                0 <= i < j < hs.drop_first().len() ==> hs.drop_first()[i] == hs[i + 1]
                    && hs.drop_first()[j] == hs[j + 1]);
        }
        lemma_hdr_insert_wf(hs.drop_first(), k, v);
        lemma_hdr_insert_keys(hs.drop_first(), k, v);
        let r = hdr_insert(hs, k, v);
        let t = hdr_insert(hs.drop_first(), k, v);
        assert forall|i: int, j: int| 0 <= i < j < r.len() implies r[i].0 != r[j].0 by {
            if i == 0 {
                assert(r[j] == t[j - 1]);
                if hdr_has(hs.drop_first(), t[j - 1].0) {
                    lemma_hdr_has_index(hs.drop_first(), t[j - 1].0);
                } else {
                    assert(t[j - 1].0 == k);
                }
            } else {
                assert(r[i] == t[i - 1]);
                assert(r[j] == t[j - 1]);
            }
        }
    }
}

/// Every key of `hdr_insert(hs, k, v)` is `k` or a key of `hs`.
pub proof fn lemma_hdr_insert_keys(hs: Seq<(Seq<u8>, Seq<u8>)>, k: Seq<u8>, v: Seq<u8>)
    ensures
        forall|j: int|
            0 <= j < hdr_insert(hs, k, v).len() ==> (#[trigger] hdr_insert(hs, k, v)[j].0 == k
                || hdr_has(hs, hdr_insert(hs, k, v)[j].0)),
    decreases hs.len(),
{
    if hs.len() == 0 {
    } else if hs[0].0 == k {
        assert forall|j: int|
            0 <= j < hdr_insert(hs, k, v).len() implies (#[trigger] hdr_insert(hs, k, v)[j].0 == k
            || hdr_has(hs, hdr_insert(hs, k, v)[j].0)) by {
            if j > 0 {
                assert(hdr_insert(hs, k, v)[j] == hs[j]);
                lemma_hdr_index_has(hs, j);
            }
        }
    } else {
        lemma_hdr_insert_keys(hs.drop_first(), k, v);
        assert forall|j: int|
            0 <= j < hdr_insert(hs, k, v).len() implies (#[trigger] hdr_insert(hs, k, v)[j].0 == k
            || hdr_has(hs, hdr_insert(hs, k, v)[j].0)) by {
            if j == 0 {
                lemma_hdr_index_has(hs, 0);
            } else {
                let t = hdr_insert(hs.drop_first(), k, v);
                assert(hdr_insert(hs, k, v)[j] == t[j - 1]);
                if t[j - 1].0 != k {
                    assert(hdr_has(hs.drop_first(), t[j - 1].0));
                    lemma_hdr_has_index(hs.drop_first(), t[j - 1].0);
                    let w = choose|m: int|
                        0 <= m < hs.drop_first().len() && hs.drop_first()[m].0 == t[j - 1].0;
                    lemma_hdr_index_has(hs, w + 1);
                }
            }
        }
    }
}

/// A key present in the mapping sits at some index.
pub proof fn lemma_hdr_has_index(hs: Seq<(Seq<u8>, Seq<u8>)>, k: Seq<u8>)
    requires
        hdr_has(hs, k),
    ensures
        exists|i: int| 0 <= i < hs.len() && #[trigger] hs[i].0 == k,
    decreases hs.len(),
{
    if hs.len() == 0 {
    } else if hs[0].0 == k {
        assert(hs[0].0 == k);
    } else {
        lemma_hdr_has_index(hs.drop_first(), k);
        let w = choose|i: int| 0 <= i < hs.drop_first().len() && #[trigger] hs.drop_first()[i].0 == k;
        assert(hs[w + 1].0 == k);
    }
}

/// The key at any index is present in the mapping.
pub proof fn lemma_hdr_index_has(hs: Seq<(Seq<u8>, Seq<u8>)>, i: int)
    requires
        0 <= i < hs.len(),
    ensures
        hdr_has(hs, hs[i].0),
    decreases i,
{
    if hs.len() == 0 {
    } else if i == 0 {
    } else if hs[0].0 == hs[i].0 {
    } else {
        lemma_hdr_index_has(hs.drop_first(), i - 1);
        assert(hs.drop_first()[i - 1] == hs[i]);
    }
}

/// When the first entry with key `k` sits at index `i`, insertion updates
/// that entry in place.
proof fn lemma_hdr_insert_update(hs: Seq<(Seq<u8>, Seq<u8>)>, k: Seq<u8>, v: Seq<u8>, i: int)
    requires
        0 <= i < hs.len(),
        hs[i].0 == k,
        forall|j: int| 0 <= j < i ==> hs[j].0 != k,
    ensures
        hdr_insert(hs, k, v) =~= hs.update(i, (k, v)),
    decreases i,
{
    if i == 0 {
    } else {
        lemma_hdr_insert_update(hs.drop_first(), k, v, i - 1);
        assert(hdr_insert(hs, k, v) =~= seq![hs[0]] + hs.drop_first().update(i - 1, (k, v)));
    }
}

/// When `k` is absent, insertion appends.
proof fn lemma_hdr_insert_push(hs: Seq<(Seq<u8>, Seq<u8>)>, k: Seq<u8>, v: Seq<u8>)
    requires
        forall|j: int| 0 <= j < hs.len() ==> (#[trigger] hs[j].0) != k,
    ensures
        hdr_insert(hs, k, v) =~= hs.push((k, v)),
    decreases hs.len(),
{
    if hs.len() == 0 {
    } else {
        lemma_hdr_insert_push(hs.drop_first(), k, v);
    }
}

proof fn lemma_hdr_lookup_at(hs: Seq<(Seq<u8>, Seq<u8>)>, k: Seq<u8>, i: int)
    requires
        0 <= i < hs.len(),
        hs[i].0 == k,
        forall|j: int| 0 <= j < i ==> hs[j].0 != k,
    ensures
        hdr_lookup(hs, k) == Some(hs[i].1),
    decreases i,
{
    if i == 0 {
    } else {
        lemma_hdr_lookup_at(hs.drop_first(), k, i - 1);
    }
}

proof fn lemma_hdr_lookup_absent(hs: Seq<(Seq<u8>, Seq<u8>)>, k: Seq<u8>)
    requires
        forall|j: int| 0 <= j < hs.len() ==> (#[trigger] hs[j].0) != k,
    ensures
        hdr_lookup(hs, k) is None,
    decreases hs.len(),
{
    if hs.len() > 0 {
        lemma_hdr_lookup_absent(hs.drop_first(), k);
    }
}

/// Looks a key up in the header list, returning a copy of the stored value.
pub fn hdr_get(headers: &Vec<(Vec<u8>, Vec<u8>)>, key: &[u8]) -> (r: Option<Vec<u8>>)
    ensures
        match r {
            None => hdr_lookup(headers.deep_view(), key@) is None,
            Some(v) => hdr_lookup(headers.deep_view(), key@) == Some(v@),
        },
{
    let ghost hs = headers.deep_view();
    let mut i: usize = 0;
    while i < headers.len()
        invariant
            hs == headers.deep_view(),
            0 <= i <= headers@.len(),
            forall|j: int| 0 <= j < i ==> (#[trigger] hs[j].0) != key@,
        decreases headers@.len() - i,
    {
        proof {
            assert(hs[i as int] == headers@[i as int].deep_view());
            assert(hs[i as int].0 =~= headers@[i as int].0@);
            assert(hs[i as int].1 =~= headers@[i as int].1@);
        }
        if crate::ascii::bytes_eq(headers[i].0.as_slice(), key) {
            let v = vstd::slice::slice_to_vec(headers[i].1.as_slice());
            proof {
                lemma_hdr_lookup_at(hs, key@, i as int);
            }
            return Some(v);
        }
        i = i + 1;
    }
    proof {
        lemma_hdr_lookup_absent(hs, key@);
    }
    None
}

/// Inserts `key`/`value` into the header list, replacing the value of an
/// existing entry with that key in place, else appending a new entry.
pub fn hdr_set(headers: &mut Vec<(Vec<u8>, Vec<u8>)>, key: Vec<u8>, value: Vec<u8>)
    ensures
        final (headers).deep_view() == hdr_insert(old(headers).deep_view(), key@, value@),
{
    let ghost hv = headers@;
    let ghost hs = headers.deep_view();
    let mut i: usize = 0;
    while i < headers.len()
        invariant
            hv == headers@,
            hs == headers.deep_view(),
            hs == old(headers).deep_view(),
            0 <= i <= headers@.len(),
            forall|j: int| 0 <= j < i ==> (#[trigger] hs[j].0) != key@,
        decreases headers@.len() - i,
    {
        proof {
            assert(hs[i as int] == headers@[i as int].deep_view());
            assert(hs[i as int].0 =~= headers@[i as int].0@);
        }
        if crate::ascii::bytes_eq(headers[i].0.as_slice(), key.as_slice()) {
            let ghost kv = key@;
            let ghost vv = value@;
            headers.remove(i);
            headers.insert(i, (key, value));
            proof {
                lemma_hdr_insert_update(hs, kv, vv, i as int);
                assert(headers@ =~= hv.update(i as int, headers@[i as int]));
                let nv = headers.deep_view();
                let uv = hs.update(i as int, (kv, vv));
                assert(headers@[i as int].0@ == kv && headers@[i as int].1@ == vv);
                assert forall|j: int| 0 <= j < nv.len() implies nv[j] == uv[j] by {
                    if j == i {
                        assert(nv[j].0 =~= kv);
                        assert(nv[j].1 =~= vv);
                    } else {
                        assert(headers@[j] == hv[j]);
                        assert(nv[j] == hs[j]);
                    }
                }
                assert(nv =~= uv);
            }
            return ;
        }
        i = i + 1;
    }
    let ghost kv = key@;
    let ghost vv = value@;
    headers.push((key, value));
    proof {
        lemma_hdr_insert_push(hs, kv, vv);
        let nv = headers.deep_view();
        let pv = hs.push((kv, vv));
        assert forall|j: int| 0 <= j < nv.len() implies nv[j] == pv[j] by {
            if j == hs.len() {
                assert(headers@[j] == (key, value));
                assert(nv[j].0 =~= kv);
                assert(nv[j].1 =~= vv);
            } else {
                assert(headers@[j] == hv[j]);
                assert(nv[j] == hs[j]);
            }
        }
        assert(nv =~= pv);
    }
}

} // verus!
