//! Ordered association lists of strings: insertion keeps first-seen
//! positions and replaces the value of a key already present.
use vstd::prelude::*;
use crate::text::str_eq;

verus! {

/// The characters of each key and value.
pub open spec fn pairs_view(v: Seq<(String, String)>) -> Seq<(Seq<char>, Seq<char>)> {
    v.map_values(|p: (String, String)| (p.0@, p.1@))
}

/// `i` is the first position of key `k` in `m`.
pub open spec fn first_key_at<V>(m: Seq<(Seq<char>, V)>, k: Seq<char>, i: int) -> bool {
    &&& 0 <= i < m.len()
    &&& m[i].0 == k
    &&& forall|j: int| 0 <= j < i ==> m[j].0 != k
}

pub open spec fn has_key<V>(m: Seq<(Seq<char>, V)>, k: Seq<char>) -> bool {
    exists|i: int| 0 <= i < m.len() && m[i].0 == k
}

/// The value of key `k`, taken at its first position.
pub open spec fn lookup<V>(m: Seq<(Seq<char>, V)>, k: Seq<char>) -> Option<V> {
    if has_key(m, k) {
        Some(m[choose|i: int| first_key_at(m, k, i)].1)
    } else {
        None
    }
}

/// `m` with `k` bound to `v`: in place where `k` is present, at the end otherwise.
pub open spec fn assoc_insert<V>(m: Seq<(Seq<char>, V)>, k: Seq<char>, v: V) -> Seq<(Seq<char>, V)> {
    if has_key(m, k) {
        m.update(choose|i: int| first_key_at(m, k, i), (k, v))
    } else {
        m.push((k, v))
    }
}

pub proof fn lemma_first_key_unique<V>(m: Seq<(Seq<char>, V)>, k: Seq<char>, i: int, j: int)
    requires
        first_key_at(m, k, i),
        first_key_at(m, k, j),
    ensures
        i == j,
{
}

pub proof fn lemma_first_key_exists<V>(m: Seq<(Seq<char>, V)>, k: Seq<char>)
    requires
        has_key(m, k),
    ensures
        exists|i: int| first_key_at(m, k, i),
    decreases m.len(),
{
    if m[m.len() - 1].0 == k {
        if has_key(m.drop_last(), k) {
            lemma_first_key_exists(m.drop_last(), k);
            let i = choose|i: int| first_key_at(m.drop_last(), k, i);
            assert(forall|j: int| 0 <= j < i ==> m.drop_last()[j] == m[j]);
            assert(first_key_at(m, k, i));
        } else {
            assert forall|j: int| 0 <= j < m.len() - 1 implies m[j].0 != k by {
                assert(m.drop_last()[j] == m[j]);
            }
            assert(first_key_at(m, k, m.len() - 1));
        }
    } else {
        let w = choose|w: int| 0 <= w < m.len() && m[w].0 == k;
        assert(has_key(m.drop_last(), k)) by {
            assert(m.drop_last()[w].0 == k);
        }
        lemma_first_key_exists(m.drop_last(), k);
        let i = choose|i: int| first_key_at(m.drop_last(), k, i);
        assert(forall|j: int| 0 <= j < i ==> m.drop_last()[j] == m[j]);
        assert(first_key_at(m, k, i));
    }
}

/// The first position of `k` in `m`, if any.
pub fn find_key(m: &Vec<(String, String)>, k: &str) -> (r: Option<usize>)
    ensures
        match r {
            Some(i) => first_key_at(pairs_view(m@), k@, i as int),
            None => !has_key(pairs_view(m@), k@),
        },
{
    let mut i: usize = 0;
    while i < m.len()
        invariant
            i <= m@.len(),
            forall|j: int| 0 <= j < i ==> pairs_view(m@)[j].0 != k@,
        decreases m.len() - i,
    {
        if str_eq(m[i].0.as_str(), k) {
            return Some(i);
        }
        i = i + 1;
    }
    None
}

/// Binds `k` to `v` in `m`, replacing in place a binding already present.
pub fn insert_pair(m: &mut Vec<(String, String)>, k: String, v: String)
    ensures
        pairs_view(final(m)@) == assoc_insert(pairs_view(old(m)@), k@, v@),
{
    match find_key(m, k.as_str()) {
        Some(i) => {
            proof {
                lemma_first_key_exists(pairs_view(old(m)@), k@);
                let c = choose|j: int| first_key_at(pairs_view(old(m)@), k@, j);
                lemma_first_key_unique(pairs_view(old(m)@), k@, c, i as int);
            }
            m[i] = (k, v);
            assert(pairs_view(m@) =~= assoc_insert(pairs_view(old(m)@), k@, v@));
        },
        None => {
            m.push((k, v));
            assert(pairs_view(m@) =~= assoc_insert(pairs_view(old(m)@), k@, v@));
        },
    }
}

} // verus!
