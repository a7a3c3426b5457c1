//! Verified core of an observability sidecar for a multi-node blockchain
//! cluster.
//!
//! The crate ingests telemetry and protocol-trace events that every cluster
//! node publishes over a shared message bus, aggregates them into
//! scrape-able metrics, and reconstructs per-transaction propagation graphs
//! across nodes for diagnostic persistence.
//!
//! The verified pieces are: a fan-in multiplexer model that merges the
//! per-endpoint event queues, a topic router that dispatches each inbound
//! message to one aggregation handler, the four metric category handlers
//! (consensus-derived, jsonrpc, auth, network), and the transaction
//! provenance tracker.  Bus subscription mechanics, the scrape HTTP
//! endpoint and the analytical store's write path are external
//! collaborators and live outside this crate.

pub mod amqp_client;
pub mod blocks;
pub mod codec;
pub mod config;
pub mod consensus_metrics;
pub mod dispatcher;
pub mod metrics;
pub mod mux;
pub mod proto;
pub mod server;
pub mod transactions;
