use vstd::prelude::*;

use crate::digest::{digest_eq, Digest};

verus! {

/// A value filed under a digest.
pub struct Entry<V> {
    pub digest: Digest,
    pub value: V,
}

/// No two entries share a digest.
pub open spec fn unique_keys<V>(s: Seq<Entry<V>>) -> bool {
    forall|i: int, j: int|
        0 <= i < s.len() && 0 <= j < s.len() && #[trigger] s[i].digest@ == #[trigger] s[j].digest@
            ==> i == j
}

pub open spec fn has_key<V>(s: Seq<Entry<V>>, k: Seq<u8>) -> bool {
    exists|i: int| 0 <= i < s.len() && #[trigger] s[i].digest@ == k
}

/// The entries as a map from digest to value.
pub open spec fn keyed_map<V>(s: Seq<Entry<V>>) -> Map<Seq<u8>, V> {
    Map::new(
        |k: Seq<u8>| has_key(s, k),
        |k: Seq<u8>| s[choose|i: int| 0 <= i < s.len() && #[trigger] s[i].digest@ == k].value,
    )
}

pub proof fn lemma_keyed_lookup<V>(s: Seq<Entry<V>>, i: int)
    requires
        unique_keys(s),
        0 <= i < s.len(),
    ensures
        keyed_map(s).contains_key(s[i].digest@),
        keyed_map(s)[s[i].digest@] == s[i].value,
{
    let k = s[i].digest@;
    assert(has_key(s, k));
    let j = choose|j: int| 0 <= j < s.len() && #[trigger] s[j].digest@ == k;
    assert(s[j].digest@ == s[i].digest@);
}

pub proof fn lemma_keyed_push<V>(s: Seq<Entry<V>>, e: Entry<V>)
    requires
        unique_keys(s),
        !has_key(s, e.digest@),
    ensures
        unique_keys(s.push(e)),
        keyed_map(s.push(e)) == keyed_map(s).insert(e.digest@, e.value),
{
    let t = s.push(e);
    assert forall|i: int, j: int|
        0 <= i < t.len() && 0 <= j < t.len() && #[trigger] t[i].digest@ == #[trigger] t[j].digest@
            implies i == j by {
        if i < s.len() && j == s.len() {
            assert(s[i].digest@ == e.digest@);
        } else if j < s.len() && i == s.len() {
            assert(s[j].digest@ == e.digest@);
        } else if i < s.len() && j < s.len() {
            assert(s[i].digest@ == s[j].digest@);
        }
    }
    assert forall|k: Seq<u8>| #[trigger] has_key(t, k) == (has_key(s, k) || k == e.digest@) by {
        if has_key(s, k) {
            let i = choose|i: int| 0 <= i < s.len() && #[trigger] s[i].digest@ == k;
            assert(t[i].digest@ == k);
        }
        if k == e.digest@ {
            assert(t[s.len() as int].digest@ == k);
        }
        if has_key(t, k) && k != e.digest@ {
            let i = choose|i: int| 0 <= i < t.len() && #[trigger] t[i].digest@ == k;
            assert(s[i].digest@ == k);
        }
    }
    assert forall|k: Seq<u8>| #[trigger] keyed_map(t).contains_key(k) implies keyed_map(t)[k]
        == keyed_map(s).insert(e.digest@, e.value)[k] by {
        let i = choose|i: int| 0 <= i < t.len() && #[trigger] t[i].digest@ == k;
        lemma_keyed_lookup(t, i);
        if i < s.len() {
            lemma_keyed_lookup(s, i);
        }
    }
    assert(keyed_map(t) =~= keyed_map(s).insert(e.digest@, e.value));
}

pub proof fn lemma_keyed_update<V>(s: Seq<Entry<V>>, i: int, e: Entry<V>)
    requires
        unique_keys(s),
        0 <= i < s.len(),
        e.digest@ == s[i].digest@,
    ensures
        unique_keys(s.update(i, e)),
        keyed_map(s.update(i, e)) == keyed_map(s).insert(e.digest@, e.value),
{
    let t = s.update(i, e);
    assert forall|a: int, b: int|
        0 <= a < t.len() && 0 <= b < t.len() && #[trigger] t[a].digest@ == #[trigger] t[b].digest@
            implies a == b by {
        assert(s[a].digest@ == t[a].digest@);
        assert(s[b].digest@ == t[b].digest@);
    }
    assert forall|k: Seq<u8>| #[trigger] has_key(t, k) == has_key(s, k) by {
        if has_key(s, k) {
            let j = choose|j: int| 0 <= j < s.len() && #[trigger] s[j].digest@ == k;
            assert(t[j].digest@ == k);
        }
        if has_key(t, k) {
            let j = choose|j: int| 0 <= j < t.len() && #[trigger] t[j].digest@ == k;
            assert(s[j].digest@ == k);
        }
    }
    assert forall|k: Seq<u8>| #[trigger] keyed_map(t).contains_key(k) implies keyed_map(t)[k]
        == keyed_map(s).insert(e.digest@, e.value)[k] by {
        let j = choose|j: int| 0 <= j < t.len() && #[trigger] t[j].digest@ == k;
        lemma_keyed_lookup(t, j);
        lemma_keyed_lookup(s, j);
    }
    assert(keyed_map(t) =~= keyed_map(s).insert(e.digest@, e.value));
}

/// The position of the entry filed under `d`, if any.
pub fn find_entry<V>(v: &Vec<Entry<V>>, d: &Digest) -> (r: Option<usize>)
    requires
        unique_keys(v@),
    ensures
        match r {
            Some(i) => {
                &&& i < v@.len()
                &&& v@[i as int].digest@ == d@
                &&& keyed_map(v@).contains_key(d@)
                &&& keyed_map(v@)[d@] == v@[i as int].value
            },
            None => !keyed_map(v@).contains_key(d@),
        },
{
    let mut i: usize = 0;
    while i < v.len()
        invariant
            0 <= i <= v@.len(),
            unique_keys(v@),
            forall|j: int| 0 <= j < i ==> v@[j].digest@ != d@,
        decreases v@.len() - i,
    {
        if digest_eq(&v[i].digest, d) {
            proof {
                lemma_keyed_lookup(v@, i as int);
            }
            return Some(i);
        }
        i = i + 1;
    }
    None
}

} // verus!
