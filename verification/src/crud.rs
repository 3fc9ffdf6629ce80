//! The decision logic of the five CRUD operations.
//!
//! The HTTP and store plumbing around this library hands in plain values
//! (a parsed body, a path id, what the store returned) and receives plain
//! values back (a record to write, an instruction to send, an error to map
//! to a status).  Every decision the handlers make is taken here, under a
//! contract.

use vstd::prelude::*;

use crate::assoc::{assoc, distinct_keys, kv_model, kv_set};
use crate::json::{JsonValue, Record};
use crate::plan::{
    compile, lemma_clause_counts, render_expression, spec_assigns, spec_expression, spec_names,
    spec_removes, spec_values, UpdatePlan,
};

verus! {

/// Why a request is refused before the store is ever contacted.
#[derive(Debug, PartialEq, Eq)]
pub enum CrudError {
    /// The request body of a create or update is not a JSON object.
    NotAnObject,
    /// A get-one found no record under the requested key.
    NotFound,
}

impl CrudError {
    /// The HTTP status this error maps to: a client error for a malformed
    /// body, not-found for a missing record.
    pub fn status_code(&self) -> (r: u16)
        ensures
            *self is NotAnObject ==> r == 400,
            *self is NotFound ==> r == 404,
    {
        match self {
            CrudError::NotAnObject => 400,
            CrudError::NotFound => 404,
        }
    }
}

/// Relies on `uuid::Uuid::new_v4` and its `Display` form: a fresh random
/// identifier, rendered as the 36-character hyphenated text.  Nothing else
/// is assumed about the value.
#[verifier::external_body]
fn fresh_id() -> (r: String)
    ensures
        r@.len() == 36,
{
    uuid::Uuid::new_v4().to_string()
}

/// Prepares a create: rejects a non-object body, generates a fresh id, and
/// stores it under the primary-key attribute, overwriting any client-supplied
/// value for that field.  Returns the record to write and its id.
pub fn prepare_create(body: JsonValue, pk_name: &String) -> (r: Result<(Record, String), CrudError>)
    requires
        (body matches JsonValue::Obj(fields) ==> distinct_keys(kv_model(fields@))),
    ensures
        r is Ok <==> body is Obj,
        !(body is Obj) ==> r == Err::<(Record, String), CrudError>(CrudError::NotAnObject),
        (r matches Ok((rec, id)) ==> {
            &&& distinct_keys(kv_model(rec@))
            &&& id@.len() == 36
            &&& assoc(kv_model(rec@), pk_name@) == Some(JsonValue::Str(id))
            &&& (body matches JsonValue::Obj(fields) ==> forall|k: Seq<char>|
                k != pk_name@ ==> assoc(kv_model(rec@), k) == assoc(kv_model(fields@), k))
        }),
{
    match body {
        JsonValue::Obj(mut fields) => {
            let id = fresh_id();
            kv_set(&mut fields, pk_name.clone(), JsonValue::Str(id.clone()));
            Ok((fields, id))
        },
        _ => Err(CrudError::NotAnObject),
    }
}

/// What an update sends to the store: the instruction text and the two
/// alias tables.
pub struct UpdateInstruction {
    /// The composed `SET ... REMOVE ...` text; never empty.
    pub expression: String,
    /// Name-alias table: `#k -> k`.
    pub names: Vec<(String, String)>,
    /// Value-alias table: `:k -> v`.
    pub values: Vec<(String, JsonValue)>,
}

/// Prepares an update: compiles the patch and renders the instruction.
/// An empty patch is a no-op — `None` is returned and no store call may be
/// issued; the request still succeeds.
pub fn update_instruction(patch: Vec<(String, JsonValue)>) -> (r: Option<UpdateInstruction>)
    ensures
        r is None <==> patch@.len() == 0,
        (r matches Some(u) ==> {
            &&& u.expression@ == spec_expression(spec_assigns(patch@), spec_removes(patch@))
            &&& u.expression@.len() > 0
            &&& kv_model(u.names@) == spec_names(patch@)
            &&& kv_model(u.values@) == spec_values(patch@)
        }),
{
    if patch.is_empty() {
        return None;
    }
    let ghost p = patch@;
    let UpdatePlan { assigns, removes, names, values } = compile(patch);
    let expression = render_expression(&assigns, &removes);
    proof {
        lemma_clause_counts(p);
        assert(spec_assigns(p).len() > 0 || spec_removes(p).len() > 0);
    }
    Some(UpdateInstruction { expression, names, values })
}

/// The get-one decision: a fetched record passes through, an absent one is
/// a not-found error rather than a crash.
pub fn require_found(item: Option<Record>) -> (r: Result<Record, CrudError>)
    ensures
        r is Ok <==> item is Some,
        (item matches Some(rec) ==> r == Ok::<Record, CrudError>(rec)),
        item is None ==> r == Err::<Record, CrudError>(CrudError::NotFound),
{
    match item {
        Some(rec) => Ok(rec),
        None => Err(CrudError::NotFound),
    }
}

} // verus!
