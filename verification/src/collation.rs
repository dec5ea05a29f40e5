//! Small bookkeeping types of the block-collation layer around the
//! consensus core: timing accumulators, message classification tags and
//! the per-collation result summaries. Durations are carried as
//! milliseconds, work units as plain counters.

use vstd::prelude::*;

verus! {

/// Relies on `std::time::SystemTime::now` and `duration_since`: the
/// milliseconds since the Unix epoch, saturated at zero for a clock set
/// before it. Nothing is assumed of the value.
#[verifier::external_body]
pub fn unix_now_millis() -> u64 {
    match std::time::SystemTime::now().duration_since(std::time::UNIX_EPOCH) {
        Ok(elapsed) => {
            let millis = elapsed.as_millis();
            if millis > u64::MAX as u128 {
                u64::MAX
            } else {
                millis as u64
            }
        },
        Err(_) => 0,
    }
}

/// A stopwatch that accumulates the total time spent across start/stop
/// spans, in milliseconds.
#[derive(Debug)]
pub struct MetricsTimer {
    pub timer: Option<u64>,
    pub total_elapsed: u64,
}

impl MetricsTimer {
    /// Whether a span is currently running.
    pub open spec fn spec_running(self) -> bool {
        self.timer is Some
    }

    /// A stopped timer with nothing accumulated.
    pub fn new() -> (r: MetricsTimer)
        ensures
            !r.spec_running(),
            r.total_elapsed == 0,
    {
        MetricsTimer { timer: None, total_elapsed: 0 }
    }

    /// Opens a span at the current clock reading.
    pub fn start(&mut self)
        ensures
            final(self).spec_running(),
            final(self).total_elapsed == old(self).total_elapsed,
    {
        self.timer = Some(unix_now_millis());
    }

    /// Closes the span, if one is open, and accumulates its length; a
    /// stopped timer yields zero. Accumulation saturates.
    pub fn stop(&mut self) -> (r: u64)
        ensures
            !final(self).spec_running(),
            !old(self).spec_running() ==> r == 0 && final(self).total_elapsed == old(
                self,
            ).total_elapsed,
            old(self).spec_running() ==> final(self).total_elapsed == (if old(self).total_elapsed
                + r <= u64::MAX {
                (old(self).total_elapsed + r) as u64
            } else {
                u64::MAX
            }),
    {
        match self.timer {
            Some(started) => {
                let now = unix_now_millis();
                let elapsed = if now >= started {
                    now - started
                } else {
                    0
                };
                self.timer = None;
                self.total_elapsed = if self.total_elapsed <= u64::MAX - elapsed {
                    self.total_elapsed + elapsed
                } else {
                    u64::MAX
                };
                elapsed
            },
            None => {
                self.timer = None;
                0
            },
        }
    }
}

/// Accumulated timings and counters of one messages-reading pass.
#[derive(Debug)]
pub struct MessagesReaderMetrics {
    /// total time initializing internal message iterators, in milliseconds
    pub init_iterator_timer: MetricsTimer,
    /// total time reading existing internal messages
    pub read_existing_messages_timer: MetricsTimer,
    /// total time reading new internal messages
    pub read_new_messages_timer: MetricsTimer,
    /// total time reading external messages
    pub read_ext_messages_timer: MetricsTimer,
    /// total time adding messages to buffers
    pub add_to_message_groups_timer: MetricsTimer,
    /// existing internal messages read
    pub read_int_msgs_from_iterator_count: u64,
    /// external messages read
    pub read_ext_msgs_count: u64,
    /// new internal messages read
    pub read_new_msgs_count: u64,
    pub add_to_msgs_groups_ops_count: u64,
}

impl MessagesReaderMetrics {
    /// Empty metrics.
    pub fn new() -> (r: MessagesReaderMetrics)
        ensures
            r.read_int_msgs_from_iterator_count == 0,
            r.read_ext_msgs_count == 0,
            r.read_new_msgs_count == 0,
            r.add_to_msgs_groups_ops_count == 0,
    {
        MessagesReaderMetrics {
            init_iterator_timer: MetricsTimer::new(),
            read_existing_messages_timer: MetricsTimer::new(),
            read_new_messages_timer: MetricsTimer::new(),
            read_ext_messages_timer: MetricsTimer::new(),
            add_to_message_groups_timer: MetricsTimer::new(),
            read_int_msgs_from_iterator_count: 0,
            read_ext_msgs_count: 0,
            read_new_msgs_count: 0,
            add_to_msgs_groups_ops_count: 0,
        }
    }

    /// Folds another pass's metrics in: elapsed times and message counts
    /// add up; the group-operation count saturates.
    pub fn append(&mut self, other: MessagesReaderMetrics)
        requires
            old(self).init_iterator_timer.total_elapsed
                + other.init_iterator_timer.total_elapsed <= u64::MAX,
            old(self).read_existing_messages_timer.total_elapsed
                + other.read_existing_messages_timer.total_elapsed <= u64::MAX,
            old(self).read_new_messages_timer.total_elapsed
                + other.read_new_messages_timer.total_elapsed <= u64::MAX,
            old(self).read_ext_messages_timer.total_elapsed
                + other.read_ext_messages_timer.total_elapsed <= u64::MAX,
            old(self).add_to_message_groups_timer.total_elapsed
                + other.add_to_message_groups_timer.total_elapsed <= u64::MAX,
            old(self).read_int_msgs_from_iterator_count
                + other.read_int_msgs_from_iterator_count <= u64::MAX,
            old(self).read_ext_msgs_count + other.read_ext_msgs_count <= u64::MAX,
            old(self).read_new_msgs_count + other.read_new_msgs_count <= u64::MAX,
        ensures
            final(self).init_iterator_timer.total_elapsed == old(
                self,
            ).init_iterator_timer.total_elapsed + other.init_iterator_timer.total_elapsed,
            final(self).read_existing_messages_timer.total_elapsed == old(
                self,
            ).read_existing_messages_timer.total_elapsed
                + other.read_existing_messages_timer.total_elapsed,
            final(self).read_new_messages_timer.total_elapsed == old(
                self,
            ).read_new_messages_timer.total_elapsed
                + other.read_new_messages_timer.total_elapsed,
            final(self).read_ext_messages_timer.total_elapsed == old(
                self,
            ).read_ext_messages_timer.total_elapsed
                + other.read_ext_messages_timer.total_elapsed,
            final(self).add_to_message_groups_timer.total_elapsed == old(
                self,
            ).add_to_message_groups_timer.total_elapsed
                + other.add_to_message_groups_timer.total_elapsed,
            final(self).read_int_msgs_from_iterator_count == old(
                self,
            ).read_int_msgs_from_iterator_count + other.read_int_msgs_from_iterator_count,
            final(self).read_ext_msgs_count == old(self).read_ext_msgs_count
                + other.read_ext_msgs_count,
            final(self).read_new_msgs_count == old(self).read_new_msgs_count
                + other.read_new_msgs_count,
            final(self).add_to_msgs_groups_ops_count == (if old(
                self,
            ).add_to_msgs_groups_ops_count + other.add_to_msgs_groups_ops_count <= u64::MAX {
                old(self).add_to_msgs_groups_ops_count + other.add_to_msgs_groups_ops_count
            } else {
                u64::MAX as int
            }),
    {
        self.init_iterator_timer.total_elapsed = self.init_iterator_timer.total_elapsed
            + other.init_iterator_timer.total_elapsed;
        self.read_existing_messages_timer.total_elapsed =
            self.read_existing_messages_timer.total_elapsed
            + other.read_existing_messages_timer.total_elapsed;
        self.read_new_messages_timer.total_elapsed = self.read_new_messages_timer.total_elapsed
            + other.read_new_messages_timer.total_elapsed;
        self.read_ext_messages_timer.total_elapsed = self.read_ext_messages_timer.total_elapsed
            + other.read_ext_messages_timer.total_elapsed;
        self.add_to_message_groups_timer.total_elapsed =
            self.add_to_message_groups_timer.total_elapsed
            + other.add_to_message_groups_timer.total_elapsed;
        self.read_int_msgs_from_iterator_count = self.read_int_msgs_from_iterator_count
            + other.read_int_msgs_from_iterator_count;
        self.read_ext_msgs_count = self.read_ext_msgs_count + other.read_ext_msgs_count;
        self.read_new_msgs_count = self.read_new_msgs_count + other.read_new_msgs_count;
        self.add_to_msgs_groups_ops_count = if self.add_to_msgs_groups_ops_count
            <= u64::MAX - other.add_to_msgs_groups_ops_count {
            self.add_to_msgs_groups_ops_count + other.add_to_msgs_groups_ops_count
        } else {
            u64::MAX
        };
    }
}

/// Which block limit a collation has hit.
#[derive(Debug, Clone, Copy, PartialEq, Eq, Structural)]
pub enum BlockLimitsLevel {
    Soft,
    Hard,
}

/// The classification of one parsed message.
#[derive(Debug, Clone, Copy, PartialEq, Eq, Structural)]
pub enum ParsedMessageKind {
    Recover,
    Mint,
    ExtIn,
    Int,
    ExtOut,
}

/// The special origin of a synthetic message.
#[derive(Debug, Clone, Copy, PartialEq, Eq, Structural)]
pub enum SpecialOrigin {
    Recover,
    Mint,
}

/// Where a dequeued internal message came from.
#[derive(Debug, Clone, Copy, PartialEq, Eq, Structural)]
pub struct Dequeued {
    pub same_shard: bool,
}

/// Timing summary of finalizing one collation, in milliseconds.
#[derive(Debug, Clone, Copy)]
pub struct FinalizedCollationResult {
    pub handle_block_candidate_elapsed: u64,
}

/// Work-unit and timing summary of executing one collation's message
/// groups, durations in milliseconds.
#[derive(Debug, Clone, Copy)]
pub struct ExecuteResult {
    pub execute_groups_wu_vm_only: u64,
    pub process_txs_wu: u64,
    pub execute_groups_wu_total: u64,
    pub prepare_groups_wu_total: u64,
    pub fill_msgs_total_elapsed: u64,
    pub execute_msgs_total_elapsed: u64,
    pub process_txs_total_elapsed: u64,
    pub init_iterator_elapsed: u64,
    pub read_existing_messages_elapsed: u64,
    pub read_ext_messages_elapsed: u64,
    pub read_new_messages_elapsed: u64,
    pub add_to_message_groups_elapsed: u64,
    pub last_read_to_anchor_chain_time: Option<u64>,
}

/// Timing summary of one whole collation attempt, in milliseconds.
#[derive(Debug, Clone, Copy)]
pub struct FinalResult {
    pub prepare_elapsed: u64,
    pub finalize_block_elapsed: u64,
    pub has_unprocessed_messages: bool,
    pub diff_messages_len: usize,
    pub execute_elapsed: u64,
    pub execute_tick_elapsed: u64,
    pub execute_tock_elapsed: u64,
    pub create_queue_diff_elapsed: u64,
    pub apply_queue_diff_elapsed: u64,
}

/// Why a master-block collation is forced out of turn, if it is.
#[derive(Debug, Clone, Copy, PartialEq, Eq, Structural)]
pub enum ForceMasterCollation {
    No,
    ByUncommittedChain,
    ByAnchorImportSkipped,
    ByUprocessedMessages,
}

impl ForceMasterCollation {
    /// Whether a master collation is forced at all.
    pub fn is_forced(&self) -> (r: bool)
        ensures
            r == !(*self is No),
    {
        !matches!(self, ForceMasterCollation::No)
    }
}

} // verus!
