//! The partial-update compiler.
//!
//! A patch is a flat JSON object: a list of `(attribute name, value)` pairs.
//! [`compile`] turns it into an [`UpdatePlan`]: assign clauses for the
//! non-null values, remove clauses for the null ones, and two alias tables
//! that shield attribute names from the store's reserved words.  Every
//! attribute name `k` is referenced only through the alias `#k`, every new
//! value only through the token `:k`.
//!
//! [`render_expression`] composes the plan's textual instruction:
//! a `SET` segment, a `REMOVE` segment, either omitted when empty, separated
//! by one space when both are present.

use vstd::prelude::*;

use crate::assoc::{
    assoc, distinct_keys, kv_model, lemma_assoc_at_index, lemma_assoc_none, lemma_kv_model_index,
    lemma_kv_model_len,
};
use crate::json::JsonValue;

verus! {

/// The name alias for attribute `k`: `#k`.
pub open spec fn alias_of(k: Seq<char>) -> Seq<char> {
    seq!['#'] + k
}

/// The value token for attribute `k`: `:k`.
pub open spec fn token_of(k: Seq<char>) -> Seq<char> {
    seq![':'] + k
}

/// The spec-level reading of a vector of string pairs.
pub open spec fn str_pairs_model(s: Seq<(String, String)>) -> Seq<(Seq<char>, Seq<char>)> {
    s.map_values(|kv: (String, String)| (kv.0@, kv.1@))
}

/// The spec-level reading of a vector of strings.
pub open spec fn strs_model(s: Seq<String>) -> Seq<Seq<char>> {
    s.map_values(|x: String| x@)
}

pub broadcast proof fn lemma_str_pairs_model_len(s: Seq<(String, String)>)
    ensures
        #[trigger] str_pairs_model(s).len() == s.len(),
{
}

pub broadcast proof fn lemma_str_pairs_model_index(s: Seq<(String, String)>, i: int)
    requires
        0 <= i < s.len(),
    ensures
        #[trigger] str_pairs_model(s)[i] == (s[i].0@, s[i].1@),
{
}

pub broadcast proof fn lemma_strs_model_len(s: Seq<String>)
    ensures
        #[trigger] strs_model(s).len() == s.len(),
{
}

pub broadcast proof fn lemma_strs_model_index(s: Seq<String>, i: int)
    requires
        0 <= i < s.len(),
    ensures
        #[trigger] strs_model(s)[i] == s[i]@,
{
}

/// The assign clauses a patch compiles to: one `(alias, token)` pair per
/// non-null value, in patch order.
pub open spec fn spec_assigns(p: Seq<(String, JsonValue)>) -> Seq<(Seq<char>, Seq<char>)>
    decreases p.len(),
{
    if p.len() == 0 {
        Seq::empty()
    } else {
        let head = if p[0].1 is Null {
            Seq::empty()
        } else {
            seq![(alias_of(p[0].0@), token_of(p[0].0@))]
        };
        head + spec_assigns(p.drop_first())
    }
}

/// The remove clauses a patch compiles to: one alias per null value, in
/// patch order.
pub open spec fn spec_removes(p: Seq<(String, JsonValue)>) -> Seq<Seq<char>>
    decreases p.len(),
{
    if p.len() == 0 {
        Seq::empty()
    } else {
        let head = if p[0].1 is Null {
            seq![alias_of(p[0].0@)]
        } else {
            Seq::empty()
        };
        head + spec_removes(p.drop_first())
    }
}

/// The name-alias table a patch compiles to: every key, null or not, gets
/// the entry `#k -> k`.
pub open spec fn spec_names(p: Seq<(String, JsonValue)>) -> Seq<(Seq<char>, String)>
    decreases p.len(),
{
    if p.len() == 0 {
        Seq::empty()
    } else {
        seq![(alias_of(p[0].0@), p[0].0)] + spec_names(p.drop_first())
    }
}

/// The value-alias table a patch compiles to: `:k -> v` for every non-null
/// value `v`.
pub open spec fn spec_values(p: Seq<(String, JsonValue)>) -> Seq<(Seq<char>, JsonValue)>
    decreases p.len(),
{
    if p.len() == 0 {
        Seq::empty()
    } else {
        let head = if p[0].1 is Null {
            Seq::empty()
        } else {
            seq![(token_of(p[0].0@), p[0].1)]
        };
        head + spec_values(p.drop_first())
    }
}

/// The text of one assign clause: `#k = :k`.
pub open spec fn clause_text(a: (Seq<char>, Seq<char>)) -> Seq<char> {
    a.0 + seq![' ', '=', ' '] + a.1
}

/// The texts of all assign clauses.
pub open spec fn clause_texts(s: Seq<(Seq<char>, Seq<char>)>) -> Seq<Seq<char>> {
    s.map_values(|a: (Seq<char>, Seq<char>)| clause_text(a))
}

/// Comma-joins a list of clause texts.
pub open spec fn joined(parts: Seq<Seq<char>>) -> Seq<char>
    decreases parts.len(),
{
    if parts.len() == 0 {
        Seq::empty()
    } else if parts.len() == 1 {
        parts[0]
    } else {
        parts[0] + seq![',', ' '] + joined(parts.drop_first())
    }
}

pub open spec fn set_prefix() -> Seq<char> {
    seq!['S', 'E', 'T', ' ']
}

pub open spec fn remove_prefix() -> Seq<char> {
    seq!['R', 'E', 'M', 'O', 'V', 'E', ' ']
}

/// The composed instruction text: a `SET` segment and a `REMOVE` segment,
/// either omitted when its clause list is empty, separated by one space when
/// both are present; empty exactly when the plan is a no-op.
pub open spec fn spec_expression(a: Seq<(Seq<char>, Seq<char>)>, r: Seq<Seq<char>>) -> Seq<char> {
    if a.len() > 0 && r.len() > 0 {
        set_prefix() + joined(clause_texts(a)) + seq![' '] + remove_prefix() + joined(r)
    } else if a.len() > 0 {
        set_prefix() + joined(clause_texts(a))
    } else if r.len() > 0 {
        remove_prefix() + joined(r)
    } else {
        Seq::empty()
    }
}

pub proof fn lemma_joined_push(parts: Seq<Seq<char>>, x: Seq<char>)
    ensures
        parts.len() == 0 ==> joined(parts.push(x)) == x,
        parts.len() > 0 ==> joined(parts.push(x)) == joined(parts) + seq![',', ' '] + x,
    decreases parts.len(),
{
    let p = parts.push(x);
    if parts.len() == 0 {
        assert(p.len() == 1);
        assert(p[0] == x);
    } else if parts.len() == 1 {
        assert(p[0] == parts[0]);
        assert(p.drop_first() =~= seq![x]);
        assert(joined(seq![x]) == x);
    } else {
        assert(p[0] == parts[0]);
        assert(p.drop_first() =~= parts.drop_first().push(x));
        lemma_joined_push(parts.drop_first(), x);
        assert(parts[0] + seq![',', ' '] + (joined(parts.drop_first()) + seq![',', ' '] + x)
            =~= (parts[0] + seq![',', ' '] + joined(parts.drop_first())) + seq![',', ' '] + x);
    }
}

/// A compiled update plan: assign clauses, remove clauses, and the two alias
/// tables the clauses refer into.
pub struct UpdatePlan {
    /// `(name alias, value token)` pairs, rendered as `#k = :k`.
    pub assigns: Vec<(String, String)>,
    /// Name aliases of the attributes to delete.
    pub removes: Vec<String>,
    /// Name-alias table: `#k -> k`.
    pub names: Vec<(String, String)>,
    /// Value-alias table: `:k -> v`.
    pub values: Vec<(String, JsonValue)>,
}

/// Builds the name alias `#k`.
fn name_alias(k: &String) -> (r: String)
    ensures
        r@ == alias_of(k@),
{
    let mut r = String::new();
    r.append("#");
    r.append(k.as_str());
    proof {
        reveal_strlit("#");
        assert(r@ =~= alias_of(k@));
    }
    r
}

/// Builds the value token `:k`.
fn value_token(k: &String) -> (r: String)
    ensures
        r@ == token_of(k@),
{
    let mut r = String::new();
    r.append(":");
    r.append(k.as_str());
    proof {
        reveal_strlit(":");
        assert(r@ =~= token_of(k@));
    }
    r
}

/// The update compiler: turns a patch into its update plan.
///
/// Each key contributes independently: a name alias always; an assign clause
/// and a value entry when its value is not null; a remove clause when it is.
/// Attribute names are embedded in their aliases verbatim, without
/// sanitizing.
pub fn compile(patch: Vec<(String, JsonValue)>) -> (plan: UpdatePlan)
    ensures
        str_pairs_model(plan.assigns@) == spec_assigns(patch@),
        strs_model(plan.removes@) == spec_removes(patch@),
        kv_model(plan.names@) == spec_names(patch@),
        kv_model(plan.values@) == spec_values(patch@),
{
    broadcast use lemma_kv_model_len, lemma_kv_model_index, lemma_str_pairs_model_len,
        lemma_str_pairs_model_index, lemma_strs_model_len, lemma_strs_model_index;

    let ghost orig = patch@;
    let mut rest = patch;
    let mut assigns: Vec<(String, String)> = Vec::new();
    let mut removes: Vec<String> = Vec::new();
    let mut names: Vec<(String, String)> = Vec::new();
    let mut values: Vec<(String, JsonValue)> = Vec::new();
    while rest.len() > 0
        invariant
            spec_assigns(orig) == str_pairs_model(assigns@) + spec_assigns(rest@),
            spec_removes(orig) == strs_model(removes@) + spec_removes(rest@),
            spec_names(orig) == kv_model(names@) + spec_names(rest@),
            spec_values(orig) == kv_model(values@) + spec_values(rest@),
        decreases rest@.len(),
    {
        let ghost before = rest@;
        let (k, v) = rest.remove(0);
        proof {
            assert(rest@ =~= before.drop_first());
            assert(k == before[0].0);
            assert(v == before[0].1);
        }
        let alias = name_alias(&k);
        if v.is_null() {
            proof {
                assert(spec_assigns(before) == spec_assigns(rest@));
                assert(spec_values(before) == spec_values(rest@));
                assert(strs_model(removes@.push(alias)) =~= strs_model(removes@).push(
                    alias_of(k@),
                ));
                assert(strs_model(removes@).push(alias_of(k@)) + spec_removes(rest@) =~= strs_model(
                    removes@,
                ) + spec_removes(before));
                assert(kv_model(names@.push((alias, k))) =~= kv_model(names@).push(
                    (alias_of(k@), k),
                ));
                assert(kv_model(names@).push((alias_of(k@), k)) + spec_names(rest@) =~= kv_model(
                    names@,
                ) + spec_names(before));
            }
            removes.push(alias.clone());
            names.push((alias, k));
        } else {
            let token = value_token(&k);
            proof {
                assert(spec_removes(before) == spec_removes(rest@));
                let a = (alias_of(k@), token_of(k@));
                assert(str_pairs_model(assigns@.push((alias, token))) =~= str_pairs_model(
                    assigns@,
                ).push(a));
                assert(str_pairs_model(assigns@).push(a) + spec_assigns(rest@) =~= str_pairs_model(
                    assigns@,
                ) + spec_assigns(before));
                assert(kv_model(names@.push((alias, k))) =~= kv_model(names@).push(
                    (alias_of(k@), k),
                ));
                assert(kv_model(names@).push((alias_of(k@), k)) + spec_names(rest@) =~= kv_model(
                    names@,
                ) + spec_names(before));
                assert(kv_model(values@.push((token, v))) =~= kv_model(values@).push(
                    (token_of(k@), v),
                ));
                assert(kv_model(values@).push((token_of(k@), v)) + spec_values(rest@) =~= kv_model(
                    values@,
                ) + spec_values(before));
            }
            assigns.push((alias.clone(), token.clone()));
            values.push((token, v));
            names.push((alias, k));
        }
    }
    proof {
        assert(spec_assigns(orig) =~= str_pairs_model(assigns@));
        assert(spec_removes(orig) =~= strs_model(removes@));
        assert(spec_names(orig) =~= kv_model(names@));
        assert(spec_values(orig) =~= kv_model(values@));
    }
    UpdatePlan { assigns, removes, names, values }
}

/// Renders the plan's instruction text from its assign and remove clauses.
pub fn render_expression(assigns: &Vec<(String, String)>, removes: &Vec<String>) -> (r: String)
    ensures
        r@ == spec_expression(str_pairs_model(assigns@), strs_model(removes@)),
{
    broadcast use lemma_str_pairs_model_len, lemma_str_pairs_model_index, lemma_strs_model_len,
        lemma_strs_model_index;

    let ghost am = str_pairs_model(assigns@);
    let ghost rm = strs_model(removes@);
    let mut out = String::new();
    if assigns.len() > 0 {
        out.append("SET ");
        proof {
            reveal_strlit("SET ");
            assert(clause_texts(am.take(0)).len() == 0);
            assert(out@ =~= set_prefix() + joined(clause_texts(am.take(0))));
        }
        let mut i: usize = 0;
        while i < assigns.len()
            invariant
                i <= assigns@.len(),
                am == str_pairs_model(assigns@),
                out@ == set_prefix() + joined(clause_texts(am.take(i as int))),
            decreases assigns@.len() - i,
        {
            if i > 0 {
                out.append(", ");
            }
            out.append(assigns[i].0.as_str());
            out.append(" = ");
            out.append(assigns[i].1.as_str());
            proof {
                reveal_strlit(", ");
                reveal_strlit(" = ");
                let t = clause_texts(am.take(i as int));
                let c = clause_text(am[i as int]);
                assert(clause_texts(am.take(i + 1)) =~= t.push(c));
                lemma_joined_push(t, c);
                assert(t.len() == i);
                assert(c =~= assigns@[i as int].0@ + " = "@ + assigns@[i as int].1@);
                assert(out@ =~= set_prefix() + joined(clause_texts(am.take(i + 1))));
            }
            i += 1;
        }
        proof {
            assert(am.take(assigns@.len() as int) =~= am);
        }
    }
    if removes.len() > 0 {
        let ghost base = out@;
        if assigns.len() > 0 {
            out.append(" ");
            proof {
                reveal_strlit(" ");
            }
        }
        out.append("REMOVE ");
        proof {
            reveal_strlit("REMOVE ");
            assert(out@ =~= base + (if assigns@.len() > 0 { seq![' '] } else {
                Seq::<char>::empty()
            }) + remove_prefix() + joined(rm.take(0)));
        }
        let ghost head = out@;
        let mut i: usize = 0;
        while i < removes.len()
            invariant
                i <= removes@.len(),
                rm == strs_model(removes@),
                out@ == head + joined(rm.take(i as int)),
            decreases removes@.len() - i,
        {
            if i > 0 {
                out.append(", ");
            }
            out.append(removes[i].as_str());
            proof {
                reveal_strlit(", ");
                let t = rm.take(i as int);
                assert(rm.take(i + 1) =~= t.push(rm[i as int]));
                lemma_joined_push(t, rm[i as int]);
                assert(t.len() == i);
                assert(out@ =~= head + joined(rm.take(i + 1)));
            }
            i += 1;
        }
        proof {
            assert(rm.take(removes@.len() as int) =~= rm);
            if assigns@.len() > 0 {
                assert(out@ =~= spec_expression(am, rm));
            } else {
                assert(base =~= Seq::<char>::empty());
                assert(out@ =~= spec_expression(am, rm));
            }
        }
    }
    out
}

/// Every key of a patch lands in exactly one clause list: the assign and
/// remove clauses together number the keys, the name table covers every key,
/// and the value table matches the assign clauses one for one.
pub proof fn lemma_clause_counts(p: Seq<(String, JsonValue)>)
    ensures
        spec_assigns(p).len() + spec_removes(p).len() == p.len(),
        spec_names(p).len() == p.len(),
        spec_values(p).len() == spec_assigns(p).len(),
    decreases p.len(),
{
    if p.len() > 0 {
        lemma_clause_counts(p.drop_first());
    }
}

/// A patch with only non-null values compiles to a pure assignment: no
/// remove clause, and one assign clause per key.
pub proof fn lemma_pure_assignment(p: Seq<(String, JsonValue)>)
    requires
        forall|i: int| 0 <= i < p.len() ==> !(#[trigger] p[i].1 is Null),
    ensures
        spec_removes(p) == Seq::<Seq<char>>::empty(),
        spec_assigns(p).len() == p.len(),
        spec_values(p).len() == p.len(),
    decreases p.len(),
{
    if p.len() > 0 {
        assert(!(p[0].1 is Null));
        assert(forall|i: int|
            0 <= i < p.drop_first().len() ==> !(#[trigger] p.drop_first()[i].1 is Null));
        lemma_pure_assignment(p.drop_first());
        assert(spec_removes(p) =~= Seq::<Seq<char>>::empty());
    }
}

/// A patch with only null values compiles to a pure removal: no assign
/// clause, no value entry, and one remove clause per key.
pub proof fn lemma_pure_removal(p: Seq<(String, JsonValue)>)
    requires
        forall|i: int| 0 <= i < p.len() ==> #[trigger] p[i].1 is Null,
    ensures
        spec_assigns(p) == Seq::<(Seq<char>, Seq<char>)>::empty(),
        spec_values(p) == Seq::<(Seq<char>, JsonValue)>::empty(),
        spec_removes(p).len() == p.len(),
    decreases p.len(),
{
    if p.len() > 0 {
        assert(p[0].1 is Null);
        assert(forall|i: int|
            0 <= i < p.drop_first().len() ==> #[trigger] p.drop_first()[i].1 is Null);
        lemma_pure_removal(p.drop_first());
        assert(spec_assigns(p) =~= Seq::<(Seq<char>, Seq<char>)>::empty());
        assert(spec_values(p) =~= Seq::<(Seq<char>, JsonValue)>::empty());
    }
}

/// Aliasing is injective: two keys share a name alias only if they are the
/// same key.
pub proof fn lemma_alias_injective(k1: Seq<char>, k2: Seq<char>)
    requires
        alias_of(k1) == alias_of(k2),
    ensures
        k1 == k2,
{
    assert(alias_of(k1).len() == 1 + k1.len());
    assert(alias_of(k2).len() == 1 + k2.len());
    assert(k1 =~= k2) by {
        assert forall|i: int| 0 <= i < k1.len() implies k1[i] == k2[i] by {
            assert(alias_of(k1)[i + 1] == k1[i]);
            assert(alias_of(k2)[i + 1] == k2[i]);
        }
    }
}

/// Value tokens are injective too.
pub proof fn lemma_token_injective(k1: Seq<char>, k2: Seq<char>)
    requires
        token_of(k1) == token_of(k2),
    ensures
        k1 == k2,
{
    assert(token_of(k1).len() == 1 + k1.len());
    assert(token_of(k2).len() == 1 + k2.len());
    assert(k1 =~= k2) by {
        assert forall|i: int| 0 <= i < k1.len() implies k1[i] == k2[i] by {
            assert(token_of(k1)[i + 1] == k1[i]);
            assert(token_of(k2)[i + 1] == k2[i]);
        }
    }
}

/// Looking an alias up in the name table succeeds exactly for the aliases
/// of the patch's own keys, and resolves to the aliased key itself.
pub proof fn lemma_names_lookup(p: Seq<(String, JsonValue)>, k: Seq<char>)
    ensures
        assoc(spec_names(p), alias_of(k)) is Some <==> assoc(kv_model(p), k) is Some,
        (assoc(spec_names(p), alias_of(k)) matches Some(a) ==> a@ == k),
    decreases p.len(),
{
    broadcast use lemma_kv_model_len, lemma_kv_model_index;

    if p.len() > 0 {
        let rest = p.drop_first();
        assert(spec_names(p)[0] == (alias_of(p[0].0@), p[0].0));
        assert(spec_names(p).drop_first() =~= spec_names(rest));
        assert(kv_model(p).drop_first() =~= kv_model(rest));
        if alias_of(p[0].0@) == alias_of(k) {
            lemma_alias_injective(p[0].0@, k);
            assert(assoc(spec_names(p), alias_of(k)) == Some(p[0].0));
            assert(kv_model(p)[0].0 == k);
        } else {
            assert(p[0].0@ != k);
            assert(kv_model(p)[0].0 != k);
            lemma_names_lookup(rest, k);
            assert(assoc(spec_names(p), alias_of(k)) == assoc(spec_names(rest), alias_of(k)));
            assert(assoc(kv_model(p), k) == assoc(kv_model(rest), k));
        }
    }
}

/// Looking a token up in the value table mirrors the patch itself: it
/// succeeds exactly for the tokens of keys patched to a non-null value,
/// and yields that value.
pub proof fn lemma_values_lookup(p: Seq<(String, JsonValue)>, k: Seq<char>)
    requires
        distinct_keys(kv_model(p)),
    ensures
        assoc(spec_values(p), token_of(k)) == (match assoc(kv_model(p), k) {
            Some(v) => if v is Null {
                None::<JsonValue>
            } else {
                Some(v)
            },
            None => None::<JsonValue>,
        }),
    decreases p.len(),
{
    broadcast use lemma_kv_model_len, lemma_kv_model_index;

    if p.len() > 0 {
        let rest = p.drop_first();
        assert(kv_model(p).drop_first() =~= kv_model(rest));
        assert(distinct_keys(kv_model(rest))) by {
            assert forall|a: int, b: int|
                0 <= a < b < kv_model(rest).len() implies kv_model(rest)[a].0
                != kv_model(rest)[b].0 by {
                assert(kv_model(rest)[a] == kv_model(p)[a + 1]);
                assert(kv_model(rest)[b] == kv_model(p)[b + 1]);
            }
        }
        lemma_values_lookup(rest, k);
        if p[0].0@ == k {
            assert(kv_model(p)[0].0 == k);
            assert(assoc(kv_model(p), k) == Some(p[0].1));
            assert forall|t: int| 0 <= t < kv_model(rest).len() implies kv_model(rest)[t].0
                != k by {
                assert(kv_model(rest)[t] == kv_model(p)[t + 1]);
            }
            lemma_assoc_none(kv_model(rest), k);
            if p[0].1 is Null {
                assert(spec_values(p) =~= spec_values(rest));
            } else {
                assert(spec_values(p)[0] == (token_of(p[0].0@), p[0].1));
                assert(assoc(spec_values(p), token_of(k)) == Some(p[0].1));
            }
        } else {
            assert(kv_model(p)[0].0 != k);
            assert(assoc(kv_model(p), k) == assoc(kv_model(rest), k));
            if p[0].1 is Null {
                assert(spec_values(p) =~= spec_values(rest));
            } else {
                assert(spec_values(p)[0] == (token_of(p[0].0@), p[0].1));
                assert(spec_values(p).drop_first() =~= spec_values(rest));
                assert(token_of(p[0].0@) != token_of(k)) by {
                    if token_of(p[0].0@) == token_of(k) {
                        lemma_token_injective(p[0].0@, k);
                    }
                }
                assert(assoc(spec_values(p), token_of(k)) == assoc(
                    spec_values(rest),
                    token_of(k),
                ));
            }
        }
    }
}

/// The patch index that the `j`-th remove clause came from.
pub open spec fn nth_null(p: Seq<(String, JsonValue)>, j: int) -> int
    decreases p.len(),
{
    if p.len() == 0 {
        0
    } else if p[0].1 is Null {
        if j == 0 {
            0
        } else {
            1 + nth_null(p.drop_first(), j - 1)
        }
    } else {
        1 + nth_null(p.drop_first(), j)
    }
}

/// The patch index that the `i`-th assign clause came from.
pub open spec fn nth_nonnull(p: Seq<(String, JsonValue)>, i: int) -> int
    decreases p.len(),
{
    if p.len() == 0 {
        0
    } else if !(p[0].1 is Null) {
        if i == 0 {
            0
        } else {
            1 + nth_nonnull(p.drop_first(), i - 1)
        }
    } else {
        1 + nth_nonnull(p.drop_first(), i)
    }
}

/// Each remove clause is the alias of a patch key whose value is null.
pub proof fn lemma_removes_index(p: Seq<(String, JsonValue)>, j: int)
    requires
        0 <= j < spec_removes(p).len(),
    ensures
        0 <= nth_null(p, j) < p.len(),
        p[nth_null(p, j)].1 is Null,
        spec_removes(p)[j] == alias_of(p[nth_null(p, j)].0@),
    decreases p.len(),
{
    let rest = p.drop_first();
    if p[0].1 is Null {
        assert(spec_removes(p)[0] == alias_of(p[0].0@));
        if j > 0 {
            assert(spec_removes(p)[j] == spec_removes(rest)[j - 1]);
            lemma_removes_index(rest, j - 1);
            assert(p[1 + nth_null(rest, j - 1)] == rest[nth_null(rest, j - 1)]);
        }
    } else {
        assert(spec_removes(p) =~= spec_removes(rest));
        lemma_removes_index(rest, j);
        assert(p[1 + nth_null(rest, j)] == rest[nth_null(rest, j)]);
    }
}

/// Each assign clause pairs the alias and token of a patch key whose value
/// is not null, and the value table holds that value under the same token.
pub proof fn lemma_assigns_index(p: Seq<(String, JsonValue)>, i: int)
    requires
        0 <= i < spec_assigns(p).len(),
    ensures
        0 <= nth_nonnull(p, i) < p.len(),
        !(p[nth_nonnull(p, i)].1 is Null),
        spec_assigns(p)[i] == (alias_of(p[nth_nonnull(p, i)].0@), token_of(
            p[nth_nonnull(p, i)].0@,
        )),
        spec_values(p)[i] == (token_of(p[nth_nonnull(p, i)].0@), p[nth_nonnull(p, i)].1),
    decreases p.len(),
{
    let rest = p.drop_first();
    lemma_clause_counts(p);
    lemma_clause_counts(rest);
    if !(p[0].1 is Null) {
        assert(spec_assigns(p)[0] == (alias_of(p[0].0@), token_of(p[0].0@)));
        assert(spec_values(p)[0] == (token_of(p[0].0@), p[0].1));
        if i > 0 {
            assert(spec_assigns(p)[i] == spec_assigns(rest)[i - 1]);
            assert(spec_values(p)[i] == spec_values(rest)[i - 1]);
            lemma_assigns_index(rest, i - 1);
            assert(p[1 + nth_nonnull(rest, i - 1)] == rest[nth_nonnull(rest, i - 1)]);
        }
    } else {
        assert(spec_assigns(p) =~= spec_assigns(rest));
        assert(spec_values(p) =~= spec_values(rest));
        lemma_assigns_index(rest, i);
        assert(p[1 + nth_nonnull(rest, i)] == rest[nth_nonnull(rest, i)]);
    }
}

/// The output guarantee of the compiler: the plan is self-consistent.
/// Every alias named by an assign or remove clause is defined in the name
/// table, every token named by an assign clause is defined in the value
/// table, and no attribute is referenced by both an assign and a remove
/// clause.
pub proof fn lemma_plan_consistent(p: Seq<(String, JsonValue)>)
    requires
        distinct_keys(kv_model(p)),
    ensures
        forall|j: int|
            0 <= j < spec_removes(p).len() ==> assoc(
                spec_names(p),
                #[trigger] spec_removes(p)[j],
            ) is Some,
        forall|i: int|
            0 <= i < spec_assigns(p).len() ==> assoc(
                spec_names(p),
                (#[trigger] spec_assigns(p)[i]).0,
            ) is Some,
        forall|i: int|
            0 <= i < spec_assigns(p).len() ==> assoc(
                spec_values(p),
                (#[trigger] spec_assigns(p)[i]).1,
            ) is Some,
        forall|i: int, j: int|
            0 <= i < spec_assigns(p).len() && 0 <= j < spec_removes(p).len()
                ==> (#[trigger] spec_assigns(p)[i]).0 != #[trigger] spec_removes(p)[j],
{
    broadcast use lemma_kv_model_len, lemma_kv_model_index;

    assert forall|j: int|
        0 <= j < spec_removes(p).len() implies assoc(
        spec_names(p),
        #[trigger] spec_removes(p)[j],
    ) is Some by {
        lemma_removes_index(p, j);
        let t = nth_null(p, j);
        lemma_assoc_at_index(kv_model(p), t);
        lemma_names_lookup(p, p[t].0@);
    }
    assert forall|i: int|
        0 <= i < spec_assigns(p).len() implies assoc(
        spec_names(p),
        (#[trigger] spec_assigns(p)[i]).0,
    ) is Some by {
        lemma_assigns_index(p, i);
        let t = nth_nonnull(p, i);
        lemma_assoc_at_index(kv_model(p), t);
        lemma_names_lookup(p, p[t].0@);
    }
    assert forall|i: int|
        0 <= i < spec_assigns(p).len() implies assoc(
        spec_values(p),
        (#[trigger] spec_assigns(p)[i]).1,
    ) is Some by {
        lemma_assigns_index(p, i);
        let t = nth_nonnull(p, i);
        lemma_assoc_at_index(kv_model(p), t);
        lemma_values_lookup(p, p[t].0@);
    }
    assert forall|i: int, j: int|
        0 <= i < spec_assigns(p).len() && 0 <= j < spec_removes(p).len() implies (
    #[trigger] spec_assigns(p)[i]).0 != #[trigger] spec_removes(p)[j] by {
        lemma_assigns_index(p, i);
        lemma_removes_index(p, j);
        let t1 = nth_nonnull(p, i);
        let t2 = nth_null(p, j);
        assert(t1 != t2);
        assert(kv_model(p)[t1].0 != kv_model(p)[t2].0);
        if alias_of(p[t1].0@) == alias_of(p[t2].0@) {
            lemma_alias_injective(p[t1].0@, p[t2].0@);
        }
    }
}

/// The empty patch compiles to a no-op: both clause lists, both alias
/// tables, and the instruction text are empty.
pub proof fn lemma_empty_patch_is_noop(p: Seq<(String, JsonValue)>)
    requires
        p.len() == 0,
    ensures
        spec_assigns(p) == Seq::<(Seq<char>, Seq<char>)>::empty(),
        spec_removes(p) == Seq::<Seq<char>>::empty(),
        spec_names(p) == Seq::<(Seq<char>, String)>::empty(),
        spec_values(p) == Seq::<(Seq<char>, JsonValue)>::empty(),
        spec_expression(spec_assigns(p), spec_removes(p)) == Seq::<char>::empty(),
{
}

} // verus!
