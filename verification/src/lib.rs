//! Core of a leaderless, round-based DAG consensus engine ("mempool"):
//! the round ledger, the point model, the two-phase verifier, the own-point
//! producer, the broadcast admission gate and the payload input buffer,
//! together with a few small configuration and bookkeeping types of the
//! surrounding node.

pub mod anchor_stage;
pub mod block_handles;
pub mod broadcast_filter;
pub mod collation;
pub mod compression;
pub mod crypto;
pub mod dag;
pub mod dep_map;
pub mod deps_check;
pub mod encode;
pub mod input_buffer;
pub mod models;
pub mod overlay;
pub mod point;
pub mod producer;
pub mod resolver;
pub mod schedule;
pub mod timings;
pub mod validation_task;
pub mod verify;
