//! Maps held as lists of name and value pairs with distinct names, as the API's headers
//! and variables are.

use vstd::prelude::*;
use crate::models::pair_views;
use crate::text::{chars_of, eq_chars};

verus! {

/// The index of the pair whose key is `k`, from `i` on.
pub open spec fn key_index_from(m: Seq<(Seq<char>, Seq<char>)>, k: Seq<char>, i: int) -> Option<int>
    decreases m.len() - i,
{
    if i < 0 || i >= m.len() {
        None
    } else if m[i].0 == k {
        Some(i)
    } else {
        key_index_from(m, k, i + 1)
    }
}

/// A map held as a list of pairs with distinct keys, after setting `k` to `v`: the value
/// of a present key is replaced in place, a new key goes last.
pub open spec fn map_insert(m: Seq<(Seq<char>, Seq<char>)>, k: Seq<char>, v: Seq<char>) -> Seq<(Seq<char>, Seq<char>)> {
    match key_index_from(m, k, 0) {
        Some(i) => m.update(i, (k, v)),
        None => m.push((k, v)),
    }
}

/// The map that collecting the pairs in order gives: a later pair of a key replaces an
/// earlier one.
pub open spec fn map_from_pairs(ps: Seq<(Seq<char>, Seq<char>)>) -> Seq<(Seq<char>, Seq<char>)>
    decreases ps.len(),
{
    if ps.len() == 0 {
        seq![]
    } else {
        map_insert(map_from_pairs(ps.drop_last()), ps.last().0, ps.last().1)
    }
}

pub open spec fn distinct_keys(m: Seq<(Seq<char>, Seq<char>)>) -> bool {
    forall|i: int, j: int| 0 <= i < j < m.len() ==> m[i].0 != m[j].0
}

pub proof fn lemma_key_index_from(m: Seq<(Seq<char>, Seq<char>)>, k: Seq<char>, i: int)
    requires
        0 <= i,
    ensures
        match key_index_from(m, k, i) {
            Some(j) => i <= j < m.len() && m[j].0 == k,
            None => forall|j: int| i <= j < m.len() ==> m[j].0 != k,
        },
    decreases m.len() - i,
{
    if i < m.len() && m[i].0 != k {
        lemma_key_index_from(m, k, i + 1);
    }
}

/// Inserting into a map with distinct keys keeps them distinct.
pub proof fn lemma_map_insert_distinct(m: Seq<(Seq<char>, Seq<char>)>, k: Seq<char>, v: Seq<char>)
    requires
        distinct_keys(m),
    ensures
        distinct_keys(map_insert(m, k, v)),
{
    lemma_key_index_from(m, k, 0);
}

/// Sets `k` to `v` in a map held as a list of pairs with distinct keys.
pub fn insert_pair(m: &mut Vec<(String, String)>, k: String, v: String)
    ensures
        pair_views(final(m)@) == map_insert(pair_views(old(m)@), k@, v@),
{
    let ghost pm = pair_views(m@);
    let kc = chars_of(k.as_str());
    let mut i: usize = 0;
    while i < m.len()
        invariant
            i <= m@.len(),
            pm == pair_views(m@),
            pm == pair_views(old(m)@),
            kc@ == k@,
            key_index_from(pm, k@, 0) == key_index_from(pm, k@, i as int),
        decreases m.len() - i,
    {
        let name = chars_of(m[i].0.as_str());
        if eq_chars(name.as_slice(), kc.as_slice()) {
            proof {
                assert(pm[i as int].0 == k@);
                assert(key_index_from(pm, k@, i as int) == Some(i as int));
            }
            m.set(i, (k, v));
            proof {
                assert(pair_views(m@) =~= pm.update(i as int, (k@, v@)));
            }
            return;
        }
        proof {
            assert(pm[i as int].0 != k@);
        }
        i = i + 1;
    }
    m.push((k, v));
    proof {
        assert(key_index_from(pm, k@, i as int) == None::<int>);
        assert(pair_views(m@) =~= pm.push((k@, v@)));
    }
}

/// The pairs collected into a map, a later pair of a name winning.
pub fn collect_pairs(headers: &Vec<(String, String)>) -> (r: Vec<(String, String)>)
    ensures
        pair_views(r@) == map_from_pairs(pair_views(headers@)),
{
    let mut r: Vec<(String, String)> = Vec::new();
    let mut i: usize = 0;
    proof {
        assert(pair_views(r@) =~= map_from_pairs(pair_views(headers@).take(0)));
    }
    while i < headers.len()
        invariant
            i <= headers@.len(),
            pair_views(r@) == map_from_pairs(pair_views(headers@).take(i as int)),
        decreases headers.len() - i,
    {
        let (k, v) = (headers[i].0.clone(), headers[i].1.clone());
        insert_pair(&mut r, k, v);
        proof {
            let t = pair_views(headers@).take(i + 1);
            assert(t.drop_last() =~= pair_views(headers@).take(i as int));
            assert(t.last() == (headers@[i as int].0@, headers@[i as int].1@));
        }
        i = i + 1;
    }
    proof {
        assert(pair_views(headers@).take(headers@.len() as int) =~= pair_views(headers@));
    }
    r
}

/// The value of `k` in a map held as pairs: that of its first pair.
pub open spec fn lookup(m: Seq<(Seq<char>, Seq<char>)>, k: Seq<char>) -> Option<Seq<char>> {
    match key_index_from(m, k, 0) {
        Some(i) => Some(m[i].1),
        None => None,
    }
}

/// The value of the last pair of `k`.
pub open spec fn last_value(ps: Seq<(Seq<char>, Seq<char>)>, k: Seq<char>) -> Option<Seq<char>>
    decreases ps.len(),
{
    if ps.len() == 0 {
        None
    } else if ps.last().0 == k {
        Some(ps.last().1)
    } else {
        last_value(ps.drop_last(), k)
    }
}

/// The map after setting each pair of `ps` in turn.
pub open spec fn insert_all(m: Seq<(Seq<char>, Seq<char>)>, ps: Seq<(Seq<char>, Seq<char>)>) -> Seq<(Seq<char>, Seq<char>)>
    decreases ps.len(),
{
    if ps.len() == 0 {
        m
    } else {
        let rest = insert_all(m, ps.drop_last());
        map_insert(rest, ps.last().0, ps.last().1)
    }
}

proof fn lemma_key_index_same_keys(
    a: Seq<(Seq<char>, Seq<char>)>,
    b: Seq<(Seq<char>, Seq<char>)>,
    k: Seq<char>,
    i: int,
)
    requires
        a.len() == b.len(),
        forall|j: int| 0 <= j < a.len() ==> #[trigger] a[j].0 == b[j].0,
    ensures
        key_index_from(a, k, i) == key_index_from(b, k, i),
    decreases a.len() - i,
{
    if 0 <= i < a.len() {
        lemma_key_index_same_keys(a, b, k, i + 1);
    }
}

proof fn lemma_key_index_push(m: Seq<(Seq<char>, Seq<char>)>, p: (Seq<char>, Seq<char>), k: Seq<char>, i: int)
    requires
        0 <= i <= m.len(),
    ensures
        key_index_from(m.push(p), k, i) == (match key_index_from(m, k, i) {
            Some(j) => Some(j),
            None => if p.0 == k { Some(m.len() as int) } else { None },
        }),
    decreases m.len() - i,
{
    if i < m.len() {
        assert(m.push(p)[i] == m[i]);
        lemma_key_index_push(m, p, k, i + 1);
    } else {
        assert(m.push(p)[i] == p);
        assert(key_index_from(m.push(p), k, i + 1) is None);
    }
}

/// Setting `k2` to `v2` changes the value of `k2` alone.
pub proof fn lemma_lookup_insert(m: Seq<(Seq<char>, Seq<char>)>, k2: Seq<char>, v2: Seq<char>, k: Seq<char>)
    ensures
        lookup(map_insert(m, k2, v2), k) == (if k == k2 { Some(v2) } else { lookup(m, k) }),
{
    lemma_key_index_from(m, k2, 0);
    lemma_key_index_from(m, k, 0);
    match key_index_from(m, k2, 0) {
        Some(i) => {
            let m2 = m.update(i, (k2, v2));
            lemma_key_index_same_keys(m2, m, k, 0);
            if k == k2 {
                lemma_key_index_same_keys(m2, m, k2, 0);
            }
        },
        None => {
            lemma_key_index_push(m, (k2, v2), k, 0);
        },
    }
}

/// After setting the pairs of `ps` in turn, a name has the value of its last pair in `ps`,
/// or the value it had before.
pub proof fn lemma_lookup_insert_all(m: Seq<(Seq<char>, Seq<char>)>, ps: Seq<(Seq<char>, Seq<char>)>, k: Seq<char>)
    ensures
        lookup(insert_all(m, ps), k) == (match last_value(ps, k) {
            Some(v) => Some(v),
            None => lookup(m, k),
        }),
    decreases ps.len(),
{
    if ps.len() > 0 {
        lemma_lookup_insert_all(m, ps.drop_last(), k);
        lemma_lookup_insert(insert_all(m, ps.drop_last()), ps.last().0, ps.last().1, k);
    }
}

} // verus!
