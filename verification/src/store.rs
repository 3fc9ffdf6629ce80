//! An in-memory model of the backing key-value table.
//!
//! The real service talks to a managed store; this module is the reference
//! model of the store semantics the service relies on: put / get / scan /
//! delete by primary key, and the conditional partial update.  Each
//! operation's contract pins the whole table pointwise, so the round-trip
//! and idempotence properties of the service follow from them.

use vstd::prelude::*;

use crate::assoc::{
    assoc, distinct_keys, kv_get, kv_model, kv_remove, kv_set, lemma_assoc_at_index,
    lemma_assoc_none, lemma_assoc_push, lemma_assoc_remove, lemma_assoc_some_index,
    lemma_kv_model_index, lemma_kv_model_len,
};
use crate::json::{JsonValue, Record};

verus! {

/// What one field of a record reads after a patch is applied: a non-null
/// patch value replaces it, a null patch value deletes it, an absent key
/// leaves it alone.
pub open spec fn patched(
    rec: Seq<(Seq<char>, JsonValue)>,
    p: Seq<(Seq<char>, JsonValue)>,
    k: Seq<char>,
) -> Option<JsonValue> {
    match assoc(p, k) {
        Some(v) => if v is Null {
            None
        } else {
            Some(v)
        },
        None => assoc(rec, k),
    }
}

/// Applies a patch to one record: assigns every non-null value, removes
/// every attribute patched to null.  This is the meaning of a compiled
/// update plan, stated against the record's fields.
pub fn update_record(rec: &mut Record, patch: Vec<(String, JsonValue)>)
    requires
        distinct_keys(kv_model(old(rec)@)),
        distinct_keys(kv_model(patch@)),
    ensures
        distinct_keys(kv_model(final(rec)@)),
        forall|k: Seq<char>|
            assoc(kv_model(final(rec)@), k) == patched(
                kv_model(old(rec)@),
                kv_model(patch@),
                k,
            ),
{
    broadcast use lemma_kv_model_len, lemma_kv_model_index;

    let ghost pm = kv_model(patch@);
    let ghost old0 = kv_model(rec@);
    let ghost mut i: int = 0;
    let mut rest = patch;
    proof {
        assert(kv_model(rest@) =~= pm.skip(0));
        assert(pm.take(0) =~= Seq::<(Seq<char>, JsonValue)>::empty());
    }
    while rest.len() > 0
        invariant
            0 <= i <= pm.len(),
            kv_model(rest@) == pm.skip(i),
            distinct_keys(pm),
            distinct_keys(old0),
            distinct_keys(kv_model(rec@)),
            forall|k: Seq<char>| assoc(kv_model(rec@), k) == patched(old0, pm.take(i), k),
        decreases rest@.len(),
    {
        let ghost before = rest@;
        let (k, v) = rest.remove(0);
        proof {
            assert(kv_model(before).len() == before.len());
            assert(kv_model(before) == pm.skip(i));
            assert(pm.skip(i).len() > 0);
            assert(kv_model(before)[0] == (k@, v));
            assert(pm.skip(i)[0] == pm[i]);
            assert((k@, v) == pm[i]);
            assert(kv_model(rest@) =~= kv_model(before).drop_first());
            assert(kv_model(rest@) =~= pm.skip(i + 1));
            assert(forall|t: int| 0 <= t < i ==> #[trigger] pm.take(i)[t].0 == pm[t].0);
            assert forall|t: int| 0 <= t < pm.take(i).len() implies pm.take(i)[t].0 != k@ by {
                assert(pm.take(i)[t].0 == pm[t].0);
            }
            lemma_assoc_none(pm.take(i), k@);
            assert(pm.take(i + 1) =~= pm.take(i).push(pm[i]));
            lemma_assoc_push(pm.take(i), pm[i]);
        }
        let is_null = v.is_null();
        if is_null {
            kv_remove(rec, &k);
        } else {
            kv_set(rec, k, v);
        }
        proof {
            assert forall|k2: Seq<char>|
                assoc(kv_model(rec@), k2) == patched(old0, pm.take(i + 1), k2) by {
                if k2 == k@ {
                    assert(assoc(pm.take(i + 1), k2) == Some(v));
                } else {
                    assert(assoc(pm.take(i + 1), k2) == assoc(pm.take(i), k2));
                }
            }
            i = i + 1;
        }
    }
    proof {
        assert(pm.skip(i).len() == 0);
        assert(i == pm.len());
        assert(pm.take(i) =~= pm);
    }
}

/// The key-value table: rows of (primary key, record), keys distinct,
/// every record's own field names distinct.
pub struct Table {
    pub rows: Vec<(String, Record)>,
}

impl Table {
    /// The table read as a map from primary key to record.
    pub open spec fn model(&self) -> Seq<(Seq<char>, Record)> {
        kv_model(self.rows@)
    }

    /// Well-formed: distinct primary keys, and well-formed records.
    pub open spec fn wf(&self) -> bool {
        &&& distinct_keys(self.model())
        &&& forall|idx: int|
            0 <= idx < self.model().len() ==> distinct_keys(
                kv_model(#[trigger] self.model()[idx].1@),
            )
    }

    /// An empty table.
    pub fn new() -> (t: Table)
        ensures
            t.wf(),
            t.model() == Seq::<(Seq<char>, Record)>::empty(),
    {
        let t = Table { rows: Vec::new() };
        proof {
            assert(t.model() =~= Seq::<(Seq<char>, Record)>::empty());
        }
        t
    }

    /// Writes a whole record under `id`, replacing any previous one.
    pub fn put(&mut self, id: String, rec: Record)
        requires
            old(self).wf(),
            distinct_keys(kv_model(rec@)),
        ensures
            final(self).wf(),
            assoc(final(self).model(), id@) == Some(rec),
            forall|k: Seq<char>|
                k != id@ ==> assoc(final(self).model(), k) == assoc(old(self).model(), k),
    {
        broadcast use lemma_kv_model_len, lemma_kv_model_index;

        kv_set(&mut self.rows, id, rec);
        proof {
            lemma_records_wf(old(self).model(), self.model(), id@);
        }
    }

    /// Fetches the record stored under `id`, if any.
    pub fn get<'a>(&'a self, id: &String) -> (r: Option<&'a Record>)
        ensures
            match r {
                Some(rec) => assoc(self.model(), id@) == Some(*rec),
                None => assoc(self.model(), id@) is None,
            },
    {
        kv_get(&self.rows, id)
    }

    /// Every row of the table, unbounded and unpaginated, in storage order
    /// (no ordering is promised).
    pub fn scan<'a>(&'a self) -> (r: &'a Vec<(String, Record)>)
        ensures
            kv_model(r@) == self.model(),
    {
        &self.rows
    }

    /// Deletes the record under `id`; deleting an absent key is not an
    /// error and leaves the table as it was.
    pub fn delete(&mut self, id: &String)
        requires
            old(self).wf(),
        ensures
            final(self).wf(),
            assoc(final(self).model(), id@) is None,
            forall|k: Seq<char>|
                k != id@ ==> assoc(final(self).model(), k) == assoc(old(self).model(), k),
    {
        broadcast use lemma_kv_model_len, lemma_kv_model_index;

        kv_remove(&mut self.rows, id);
        proof {
            lemma_records_wf(old(self).model(), self.model(), id@);
        }
    }

    /// Applies a patch to the record under `id`.  When no record matches
    /// the key, the table is left untouched.
    pub fn update(&mut self, id: &String, patch: Vec<(String, JsonValue)>)
        requires
            old(self).wf(),
            distinct_keys(kv_model(patch@)),
        ensures
            final(self).wf(),
            assoc(old(self).model(), id@) is None ==> final(self).model() == old(self).model(),
            forall|k: Seq<char>|
                k != id@ ==> assoc(final(self).model(), k) == assoc(old(self).model(), k),
            (assoc(old(self).model(), id@) matches Some(r0) ==> assoc(final(self).model(), id@)
                matches Some(r1) && forall|k2: Seq<char>|
                assoc(kv_model(r1@), k2) == patched(kv_model(r0@), kv_model(patch@), k2)),
    {
        broadcast use lemma_kv_model_len, lemma_kv_model_index;

        let ghost m0 = self.model();
        let mut idx: usize = 0;
        while idx < self.rows.len()
            invariant
                idx <= self.rows@.len(),
                *self == *old(self),
                old(self).wf(),
                m0 == kv_model(self.rows@),
                distinct_keys(kv_model(patch@)),
                forall|j: int| 0 <= j < idx ==> #[trigger] kv_model(self.rows@)[j].0 != id@,
            decreases self.rows@.len() - idx,
        {
            if self.rows[idx].0 == *id {
                proof {
                    lemma_assoc_at_index(m0, idx as int);
                }
                let ghost mid = m0.remove(idx as int);
                let (key, mut r) = self.rows.remove(idx);
                proof {
                    assert(kv_model(self.rows@) =~= mid);
                    lemma_assoc_remove(m0, idx as int);
                    assert(distinct_keys(mid)) by {
                        assert forall|a: int, b: int|
                            0 <= a < b < mid.len() implies mid[a].0 != mid[b].0 by {
                            if a < idx {
                                assert(mid[a] == m0[a]);
                            } else {
                                assert(mid[a] == m0[a + 1]);
                            }
                            if b < idx {
                                assert(mid[b] == m0[b]);
                            } else {
                                assert(mid[b] == m0[b + 1]);
                            }
                        }
                    }
                    assert(key@ == id@);
                    assert(r == m0[idx as int].1);
                    assert(distinct_keys(kv_model(r@)));
                }
                update_record(&mut r, patch);
                proof {
                    lemma_assoc_none(Seq::<(Seq<char>, Record)>::empty(), id@);
                    lemma_assoc_push(mid, (key@, r));
                }
                let ghost r1 = r;
                self.rows.push((key, r));
                proof {
                    assert(self.model() =~= mid.push((id@, r1)));
                    assert(assoc(mid, id@) is None);
                    assert(assoc(self.model(), id@) == Some(r1));
                    assert forall|k: Seq<char>|
                        k != id@ implies assoc(self.model(), k) == assoc(m0, k) by {
                        assert(assoc(mid.push((id@, r1)), k) == assoc(mid, k));
                        assert(assoc(mid, k) == assoc(m0, k));
                    }
                    assert(distinct_keys(self.model())) by {
                        assert forall|a: int, b: int|
                            0 <= a < b < self.model().len() implies self.model()[a].0
                            != self.model()[b].0 by {
                            if b < mid.len() {
                                assert(self.model()[a] == mid[a]);
                                assert(self.model()[b] == mid[b]);
                            } else {
                                assert(self.model()[a] == mid[a]);
                                assert(self.model()[b].0 == id@);
                                lemma_assoc_at_index(mid, a);
                            }
                        }
                    }
                    lemma_records_wf(m0, self.model(), id@);
                }
                return;
            }
            idx += 1;
        }
        proof {
            lemma_assoc_none(self.model(), id@);
        }
    }
}

/// Deleting is idempotent: deleting an id that a delete already removed
/// leaves every lookup exactly as the first delete left it, and neither
/// call can fail.  The hypotheses are what [`Table::delete`] ensures of a
/// first and a second call on the same id.
pub proof fn lemma_delete_idempotent(
    m0: Seq<(Seq<char>, Record)>,
    m1: Seq<(Seq<char>, Record)>,
    m2: Seq<(Seq<char>, Record)>,
    id: Seq<char>,
)
    requires
        assoc(m1, id) is None,
        forall|k: Seq<char>| k != id ==> assoc(m1, k) == assoc(m0, k),
        assoc(m2, id) is None,
        forall|k: Seq<char>| k != id ==> assoc(m2, k) == assoc(m1, k),
    ensures
        forall|k: Seq<char>| assoc(m2, k) == assoc(m1, k),
{
}

/// Helper: a table whose lookups agree with a well-formed table everywhere
/// but at `special`, and whose record at `special` (if any) is itself
/// well-formed, has only well-formed records.
proof fn lemma_records_wf(
    oldm: Seq<(Seq<char>, Record)>,
    newm: Seq<(Seq<char>, Record)>,
    special: Seq<char>,
)
    requires
        distinct_keys(oldm),
        distinct_keys(newm),
        forall|idx: int|
            0 <= idx < oldm.len() ==> distinct_keys(kv_model(#[trigger] oldm[idx].1@)),
        forall|k: Seq<char>| k != special ==> assoc(newm, k) == assoc(oldm, k),
        (assoc(newm, special) matches Some(r) ==> distinct_keys(kv_model(r@))),
    ensures
        forall|idx: int|
            0 <= idx < newm.len() ==> distinct_keys(kv_model(#[trigger] newm[idx].1@)),
{
    assert forall|idx: int|
        0 <= idx < newm.len() implies distinct_keys(kv_model(#[trigger] newm[idx].1@)) by {
        lemma_assoc_at_index(newm, idx);
        if newm[idx].0 != special {
            lemma_assoc_some_index(oldm, newm[idx].0);
            let j = choose|j: int|
                0 <= j < oldm.len() && oldm[j].0 == newm[idx].0 && Some(oldm[j].1) == assoc(
                    oldm,
                    newm[idx].0,
                );
            assert(oldm[j].1 == newm[idx].1);
        }
    }
}

} // verus!
