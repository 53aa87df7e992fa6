//! A local-first data engine core: a last-writer-wins object graph whose
//! nodes and edges are independent registers, a persistent layer that loads
//! and saves them against a backing store, and typed entities mapped onto the
//! graph through compiled schemas.
pub mod register;
pub mod table;
pub mod payloads;
pub mod graph;
pub mod persistent;
pub mod label;
pub mod schema;
pub mod codec;
pub mod entity;
