//! An embeddable graph database core: error registry, contract data, protocol
//! negotiation, an in-memory property graph, a small Cypher subset engine,
//! transactions and storage recovery, conformance governance checks, audit-event
//! validation, and the store and request handling of the native sidecar.

pub mod text;
pub mod strmap;
pub mod errors;
pub mod contracts;
pub mod keyed;
pub mod graph;
pub mod cypher;
pub mod query;
pub mod protocol;
pub mod audit;
pub mod bench;
pub mod runtime;
pub mod native_bench;
pub mod auth;
pub mod tx;
pub mod server;
pub mod conformance;
pub mod native_state;
pub mod native_query;
pub mod native_ops;
pub mod native_rpc;
pub mod storage;
