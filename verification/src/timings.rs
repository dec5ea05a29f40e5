//! Timing summaries the node's RPC layer reports about its chain state.

use vstd::prelude::*;

verus! {

/// Generation coordinates of one shard state.
#[derive(Debug, Clone, Copy, PartialEq, Eq, Structural)]
pub struct GenTimings {
    pub gen_lt: u64,
    pub gen_utime: u32,
}

/// How far the node's view of the chain lags, in blocks and seconds.
#[derive(Debug, Clone, Copy, PartialEq, Eq, Structural)]
pub struct StateTimings {
    pub last_mc_block_seqno: u32,
    pub last_shard_client_mc_block_seqno: u32,
    pub last_mc_utime: u32,
    pub mc_time_diff: i64,
    pub shard_client_time_diff: i64,
    pub smallest_known_lt: Option<u64>,
}

} // verus!
