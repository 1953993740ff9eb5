//! An in-memory CRUD service for a collection of game records.
//!
//! The library holds the verified core: the record schema and its view,
//! the rating validator, the JSON codec for the wire format, the query
//! and path filters, the four store handlers, and the router that ties
//! them together into a request-to-response function.

pub mod codec;
pub mod filters;
pub mod handlers;
pub mod roundtrip;
pub mod routes;
pub mod schema;
pub mod validators;
