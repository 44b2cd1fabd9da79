//! A generic adapter core that exposes a REST API described by an OpenAPI
//! 3.0+ document as a set of queryable, updatable relational tables.
//!
//! The crate contains the verified logic only: the schema model and resolver,
//! endpoint extraction, table generation, request URL construction, row and
//! pagination extraction from response bodies, and the bidirectional mapping
//! between JSON values and typed relational cells.  Transport, credential
//! lookup and time conversion are host concerns; the library hands plain
//! values (URLs, request plans, parsed JSON) across that boundary.

pub mod adapter;
pub mod cells;
pub mod endpoints;
pub mod json;
pub mod openapi;
pub mod resolve;
pub mod strutil;
pub mod tables;

