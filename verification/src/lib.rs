//! A verified core for a generic CRUD service over a single key-value table.
//!
//! Clients create, fetch, partially update, and delete flat JSON documents
//! identified by a primary key.  The heart of the library is the
//! partial-update compiler in [`plan`]: it turns a flat JSON object into an
//! update plan (assign clauses, remove clauses, and two alias tables) whose
//! meaning is pinned down by the interpreter in [`store`].  The surrounding
//! HTTP and storage plumbing is unverified glue and lives outside this crate;
//! the decision logic it needs is in [`crud`].

pub mod assoc;
pub mod crud;
pub mod json;
pub mod plan;
pub mod store;
