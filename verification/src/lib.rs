//! Core logic of a rollup conductor.
//!
//! The conductor drives a rollup execution node forward by reconciling two
//! racing block streams: *soft* blocks from a sequencer (low latency,
//! unfinalized) and *firm* blocks reconstructed from a data-availability
//! layer (finalized, authoritative). The executor state machine in this
//! crate enforces per-stream height monotonicity, deduplicates work across
//! the streams, bounds the divergence between the two commitments, and
//! resolves every commitment transition. A smaller core covers the rollup
//! transaction collector (reconnect schedule, status, and backpressure
//! decisions) and the telemetry configuration builder.
//!
//! All I/O (channels, RPC transports, websockets) stays outside this crate;
//! the functions here take plain values and return decisions and transitions
//! whose contracts are verified.

pub mod block;
pub mod collector;
pub mod executor;
pub mod state;
pub mod telemetry;
pub mod trace;
