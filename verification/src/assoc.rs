//! Association lists with `String` keys.
//!
//! Records, alias tables and the table model are all small maps from a string
//! key to some payload.  They are held as vectors of pairs; this module gives
//! them one spec-level reading (`assoc`: the value of the first entry with a
//! matching key) and verified insert / lookup / remove operations that keep
//! the keys distinct.

use vstd::prelude::*;

verus! {

/// The spec-level reading of a vector of pairs: keys as character sequences.
pub open spec fn kv_model<V>(s: Seq<(String, V)>) -> Seq<(Seq<char>, V)> {
    s.map_values(|kv: (String, V)| (kv.0@, kv.1))
}

/// First-match lookup: the value of the first entry whose key is `k`.
pub open spec fn assoc<V>(m: Seq<(Seq<char>, V)>, k: Seq<char>) -> Option<V>
    decreases m.len(),
{
    if m.len() == 0 {
        None
    } else if m[0].0 == k {
        Some(m[0].1)
    } else {
        assoc(m.drop_first(), k)
    }
}

/// No two entries share a key.
pub open spec fn distinct_keys<V>(m: Seq<(Seq<char>, V)>) -> bool {
    forall|i: int, j: int| 0 <= i < j < m.len() ==> m[i].0 != m[j].0
}

pub broadcast proof fn lemma_kv_model_len<V>(s: Seq<(String, V)>)
    ensures
        #[trigger] kv_model(s).len() == s.len(),
{
}

pub broadcast proof fn lemma_kv_model_index<V>(s: Seq<(String, V)>, i: int)
    requires
        0 <= i < s.len(),
    ensures
        #[trigger] kv_model(s)[i] == (s[i].0@, s[i].1),
{
}

pub proof fn lemma_assoc_none<V>(m: Seq<(Seq<char>, V)>, k: Seq<char>)
    requires
        forall|i: int| 0 <= i < m.len() ==> m[i].0 != k,
    ensures
        assoc(m, k) is None,
    decreases m.len(),
{
    if m.len() > 0 {
        assert(forall|i: int| 0 <= i < m.drop_first().len() ==> m.drop_first()[i].0 != k);
        lemma_assoc_none(m.drop_first(), k);
    }
}

pub proof fn lemma_assoc_found<V>(m: Seq<(Seq<char>, V)>, k: Seq<char>, idx: int)
    requires
        0 <= idx < m.len(),
        m[idx].0 == k,
        forall|i: int| 0 <= i < idx ==> m[i].0 != k,
    ensures
        assoc(m, k) == Some(m[idx].1),
    decreases idx,
{
    if idx > 0 {
        lemma_assoc_found(m.drop_first(), k, idx - 1);
    }
}

/// With distinct keys, the lookup at any entry's key finds that entry.
pub proof fn lemma_assoc_at_index<V>(m: Seq<(Seq<char>, V)>, idx: int)
    requires
        distinct_keys(m),
        0 <= idx < m.len(),
    ensures
        assoc(m, m[idx].0) == Some(m[idx].1),
{
    lemma_assoc_found(m, m[idx].0, idx);
}

/// A successful lookup names an entry of the list.
pub proof fn lemma_assoc_some_index<V>(m: Seq<(Seq<char>, V)>, k: Seq<char>)
    ensures
        assoc(m, k) is Some ==> exists|idx: int|
            0 <= idx < m.len() && m[idx].0 == k && Some(m[idx].1) == assoc(m, k),
    decreases m.len(),
{
    if m.len() > 0 {
        if m[0].0 == k {
            assert(0 <= 0 < m.len() && m[0].0 == k && Some(m[0].1) == assoc(m, k));
        } else {
            lemma_assoc_some_index(m.drop_first(), k);
            if assoc(m, k) is Some {
                let idx = choose|idx: int|
                    0 <= idx < m.drop_first().len() && m.drop_first()[idx].0 == k && Some(
                        m.drop_first()[idx].1,
                    ) == assoc(m.drop_first(), k);
                assert(m[idx + 1] == m.drop_first()[idx]);
                assert(0 <= idx + 1 < m.len() && m[idx + 1].0 == k && Some(m[idx + 1].1) == assoc(
                    m,
                    k,
                ));
            }
        }
    }
}

/// Replacing the entry at `idx` by one with the same key updates the lookup
/// at that key and leaves every other key unchanged.
pub proof fn lemma_assoc_update<V>(m: Seq<(Seq<char>, V)>, idx: int, kv: (Seq<char>, V))
    requires
        distinct_keys(m),
        0 <= idx < m.len(),
        kv.0 == m[idx].0,
    ensures
        assoc(m.update(idx, kv), kv.0) == Some(kv.1),
        forall|k: Seq<char>|
            k != kv.0 ==> assoc(m.update(idx, kv), k) == assoc(m, k),
{
    let u = m.update(idx, kv);
    lemma_assoc_found(u, kv.0, idx);
    assert forall|k: Seq<char>| k != kv.0 implies assoc(u, k) == assoc(m, k) by {
        lemma_assoc_update_other(m, idx, kv, k);
    }
}

proof fn lemma_assoc_update_other<V>(
    m: Seq<(Seq<char>, V)>,
    idx: int,
    kv: (Seq<char>, V),
    k: Seq<char>,
)
    requires
        0 <= idx < m.len(),
        kv.0 == m[idx].0,
        k != kv.0,
    ensures
        assoc(m.update(idx, kv), k) == assoc(m, k),
    decreases idx,
{
    let u = m.update(idx, kv);
    assert(u.len() == m.len());
    if idx == 0 {
        assert(u[0] == kv);
        assert(u.drop_first() =~= m.drop_first());
        assert(assoc(u, k) == assoc(u.drop_first(), k));
        assert(assoc(m, k) == assoc(m.drop_first(), k));
    } else {
        assert(u[0] == m[0]);
        assert(u.drop_first() =~= m.drop_first().update(idx - 1, kv));
        if m[0].0 == k {
            assert(assoc(u, k) == Some(u[0].1));
            assert(assoc(m, k) == Some(m[0].1));
        } else {
            lemma_assoc_update_other(m.drop_first(), idx - 1, kv, k);
            assert(assoc(u, k) == assoc(u.drop_first(), k));
            assert(assoc(m, k) == assoc(m.drop_first(), k));
        }
    }
}

/// Appending an entry whose key is fresh defines the lookup at that key and
/// leaves every other key unchanged.
pub proof fn lemma_assoc_push<V>(m: Seq<(Seq<char>, V)>, kv: (Seq<char>, V))
    ensures
        assoc(m, kv.0) is None ==> assoc(m.push(kv), kv.0) == Some(kv.1),
        forall|k: Seq<char>| k != kv.0 ==> assoc(m.push(kv), k) == assoc(m, k),
    decreases m.len(),
{
    let p = m.push(kv);
    assert(p.len() == m.len() + 1);
    if m.len() == 0 {
        assert(p[0] == kv);
        assert(p.drop_first() =~= Seq::<(Seq<char>, V)>::empty());
        assert(assoc(p, kv.0) == Some(kv.1));
        assert forall|k: Seq<char>| k != kv.0 implies assoc(p, k) == assoc(m, k) by {
            assert(assoc(p, k) == assoc(p.drop_first(), k));
            assert(assoc(p.drop_first(), k) is None);
            assert(assoc(m, k) is None);
        }
    } else {
        assert(p[0] == m[0]);
        assert(p.drop_first() =~= m.drop_first().push(kv));
        lemma_assoc_push(m.drop_first(), kv);
        if assoc(m, kv.0) is None {
            assert(m[0].0 != kv.0);
            assert(assoc(m.drop_first(), kv.0) is None);
            assert(assoc(p, kv.0) == assoc(p.drop_first(), kv.0));
        }
        assert forall|k: Seq<char>| k != kv.0 implies assoc(p, k) == assoc(m, k) by {
            if m[0].0 == k {
                assert(assoc(p, k) == Some(p[0].1));
                assert(assoc(m, k) == Some(m[0].1));
            } else {
                assert(assoc(p, k) == assoc(p.drop_first(), k));
                assert(assoc(m, k) == assoc(m.drop_first(), k));
            }
        }
    }
}

/// Removing the entry at `idx` empties the lookup at its key and leaves every
/// other key unchanged.
pub proof fn lemma_assoc_remove<V>(m: Seq<(Seq<char>, V)>, idx: int)
    requires
        distinct_keys(m),
        0 <= idx < m.len(),
    ensures
        assoc(m.remove(idx), m[idx].0) is None,
        forall|k: Seq<char>| k != m[idx].0 ==> assoc(m.remove(idx), k) == assoc(m, k),
    decreases m.len(),
{
    let r = m.remove(idx);
    assert(r.len() == m.len() - 1);
    if idx == 0 {
        assert(r =~= m.drop_first());
        assert forall|i: int| 0 <= i < r.len() implies r[i].0 != m[0].0 by {
            assert(r[i] == m[i + 1]);
        }
        lemma_assoc_none(r, m[0].0);
        assert forall|k: Seq<char>| k != m[0].0 implies assoc(r, k) == assoc(m, k) by {
            assert(assoc(m, k) == assoc(m.drop_first(), k));
        }
    } else {
        assert(r[0] == m[0]);
        assert(r.drop_first() =~= m.drop_first().remove(idx - 1));
        assert(distinct_keys(m.drop_first())) by {
            assert forall|i: int, j: int|
                0 <= i < j < m.drop_first().len() implies m.drop_first()[i].0
                != m.drop_first()[j].0 by {
                assert(m.drop_first()[i] == m[i + 1]);
                assert(m.drop_first()[j] == m[j + 1]);
            }
        }
        lemma_assoc_remove(m.drop_first(), idx - 1);
        assert(m.drop_first()[idx - 1] == m[idx]);
        assert(m[0].0 != m[idx].0);
        assert(assoc(r, m[idx].0) == assoc(r.drop_first(), m[idx].0));
        assert forall|k: Seq<char>| k != m[idx].0 implies assoc(r, k) == assoc(m, k) by {
            if m[0].0 == k {
                assert(assoc(r, k) == Some(r[0].1));
                assert(assoc(m, k) == Some(m[0].1));
            } else {
                assert(assoc(r, k) == assoc(r.drop_first(), k));
                assert(assoc(m, k) == assoc(m.drop_first(), k));
            }
        }
    }
}

/// Lookup of the first entry whose key equals `k`, or `None`.
pub fn kv_get<'a, V>(s: &'a Vec<(String, V)>, k: &String) -> (r: Option<&'a V>)
    ensures
        match r {
            Some(v) => assoc(kv_model(s@), k@) == Some(*v),
            None => assoc(kv_model(s@), k@) is None,
        },
{
    broadcast use lemma_kv_model_len, lemma_kv_model_index;

    let mut i: usize = 0;
    while i < s.len()
        invariant
            i <= s@.len(),
            forall|j: int| 0 <= j < i ==> #[trigger] kv_model(s@)[j].0 != k@,
        decreases s@.len() - i,
    {
        if s[i].0 == *k {
            proof {
                lemma_assoc_found(kv_model(s@), k@, i as int);
            }
            return Some(&s[i].1);
        }
        i += 1;
    }
    proof {
        lemma_assoc_none(kv_model(s@), k@);
    }
    None
}

/// Insert-or-replace: binds `k` to `v`, touching no other key.
pub fn kv_set<V>(s: &mut Vec<(String, V)>, k: String, v: V)
    requires
        distinct_keys(kv_model(old(s)@)),
    ensures
        distinct_keys(kv_model(final(s)@)),
        assoc(kv_model(final(s)@), k@) == Some(v),
        forall|k2: Seq<char>|
            k2 != k@ ==> assoc(kv_model(final(s)@), k2) == assoc(kv_model(old(s)@), k2),
{
    broadcast use lemma_kv_model_len, lemma_kv_model_index;

    let ghost m0 = kv_model(s@);
    let mut i: usize = 0;
    while i < s.len()
        invariant
            i <= s@.len(),
            s@ == old(s)@,
            m0 == kv_model(s@),
            distinct_keys(m0),
            forall|j: int| 0 <= j < i ==> #[trigger] kv_model(s@)[j].0 != k@,
        decreases s@.len() - i,
    {
        if s[i].0 == k {
            let ghost idx = i as int;
            s.set(i, (k, v));
            proof {
                assert(kv_model(s@) =~= m0.update(idx, (k@, v)));
                lemma_assoc_update(m0, idx, (k@, v));
                assert forall|a: int, b: int|
                    0 <= a < b < kv_model(s@).len() implies kv_model(s@)[a].0
                    != kv_model(s@)[b].0 by {
                    assert(kv_model(s@)[a].0 == m0[a].0);
                    assert(kv_model(s@)[b].0 == m0[b].0);
                }
            }
            return;
        }
        i += 1;
    }
    proof {
        lemma_assoc_none(m0, k@);
        lemma_assoc_push(m0, (k@, v));
    }
    let ghost n = s@.len() as int;
    s.push((k, v));
    proof {
        assert(kv_model(s@) =~= m0.push((k@, v)));
        assert forall|a: int, b: int|
            0 <= a < b < kv_model(s@).len() implies kv_model(s@)[a].0 != kv_model(s@)[b].0 by {
            if b < n {
                assert(kv_model(s@)[a].0 == m0[a].0);
                assert(kv_model(s@)[b].0 == m0[b].0);
            } else {
                assert(kv_model(s@)[a].0 == m0[a].0);
                assert(kv_model(s@)[b].0 == k@);
            }
        }
    }
}

/// Remove the entry with key `k`, if any; an absent key is not an error.
pub fn kv_remove<V>(s: &mut Vec<(String, V)>, k: &String)
    requires
        distinct_keys(kv_model(old(s)@)),
    ensures
        distinct_keys(kv_model(final(s)@)),
        assoc(kv_model(final(s)@), k@) is None,
        forall|k2: Seq<char>|
            k2 != k@ ==> assoc(kv_model(final(s)@), k2) == assoc(kv_model(old(s)@), k2),
{
    broadcast use lemma_kv_model_len, lemma_kv_model_index;

    let ghost m0 = kv_model(s@);
    let mut i: usize = 0;
    while i < s.len()
        invariant
            i <= s@.len(),
            s@ == old(s)@,
            m0 == kv_model(s@),
            distinct_keys(m0),
            forall|j: int| 0 <= j < i ==> #[trigger] kv_model(s@)[j].0 != k@,
        decreases s@.len() - i,
    {
        if s[i].0 == *k {
            let ghost idx = i as int;
            s.remove(i);
            proof {
                assert(kv_model(s@) =~= m0.remove(idx));
                lemma_assoc_remove(m0, idx);
                assert forall|a: int, b: int|
                    0 <= a < b < kv_model(s@).len() implies kv_model(s@)[a].0
                    != kv_model(s@)[b].0 by {
                    if a < idx {
                        assert(kv_model(s@)[a].0 == m0[a].0);
                    } else {
                        assert(kv_model(s@)[a].0 == m0[a + 1].0);
                    }
                    if b < idx {
                        assert(kv_model(s@)[b].0 == m0[b].0);
                    } else {
                        assert(kv_model(s@)[b].0 == m0[b + 1].0);
                    }
                }
            }
            return;
        }
        i += 1;
    }
    proof {
        lemma_assoc_none(m0, k@);
    }
}

} // verus!
