//! A ledger of query submissions kept in step with an external graph store.

pub mod api;
pub mod hash;
pub mod laws;
pub mod neo4j;
pub mod schema;
pub mod structures;
pub mod transactions;
