//! The external payload buffer that feeds the producer: appenders add
//! opaque byte blobs, eviction keeps the total buffered bytes under a
//! budget by dropping the oldest blobs, and the producer fetches batches
//! bounded by a byte budget. A non-fresh fetch replays the same batch if
//! the previous round failed to commit it.

use vstd::prelude::*;

verus! {

/// Byte budget of one fetched payload batch.
pub const PAYLOAD_BATCH_BYTES: usize = 786432;

/// Total bytes a blob sequence holds.
pub open spec fn spec_bytes_sum(s: Seq<Vec<u8>>) -> int
    decreases s.len(),
{
    if s.len() == 0 {
        0
    } else {
        spec_bytes_sum(s.drop_last()) + s.last()@.len()
    }
}

/// The sum of a non-empty sequence splits off its first element.
proof fn lemma_sum_front(s: Seq<Vec<u8>>)
    requires
        s.len() > 0,
    ensures
        spec_bytes_sum(s) == s[0]@.len() + spec_bytes_sum(s.subrange(1, s.len() as int)),
    decreases s.len(),
{
    if s.len() == 1 {
        assert(s.subrange(1, 1) =~= Seq::empty());
        assert(s.drop_last() =~= Seq::empty());
    } else {
        lemma_sum_front(s.drop_last());
        assert(s.drop_last()[0] == s[0]);
        assert(s.subrange(1, s.len() as int).drop_last() =~= s.drop_last().subrange(
            1,
            s.len() - 1,
        ));
        assert(s.subrange(1, s.len() as int).last() == s.last());
    }
}

/// The sum of every blob sequence is non-negative.
proof fn lemma_sum_nonneg(s: Seq<Vec<u8>>)
    ensures
        spec_bytes_sum(s) >= 0,
    decreases s.len(),
{
    if s.len() > 0 {
        lemma_sum_nonneg(s.drop_last());
    }
}

/// Whether `post` is `pre` with its `k` oldest blobs evicted — the least
/// count that lets `payload` fit the byte budget — and `payload` appended;
/// the replay offset shrinks by the evicted count.
pub open spec fn spec_evicted(
    pre: Seq<Vec<u8>>,
    pre_offset: int,
    budget: int,
    payload: Vec<u8>,
    post: Seq<Vec<u8>>,
    post_offset: int,
    k: int,
) -> bool {
    0 <= k <= pre.len() && post == pre.subrange(k, pre.len() as int).push(payload)
        && spec_bytes_sum(pre.subrange(k, pre.len() as int)) + payload@.len() <= budget && (k > 0
        ==> spec_bytes_sum(pre.subrange(k - 1, pre.len() as int)) + payload@.len() > budget) && (
    post_offset == if pre_offset >= k {
        pre_offset - k
    } else {
        0
    })
}

/// The payload input buffer: a byte-bounded queue of opaque blobs with an
/// at-least-once replay window for failed rounds.
pub struct InputBufferImpl {
    data: Vec<Vec<u8>>,
    data_bytes: usize,
    offset_elements: usize,
    payload_buffer_bytes: usize,
}

impl InputBufferImpl {
    /// The buffered byte count mirrors the blobs, and the replay offset
    /// never passes the end of the queue.
    pub closed spec fn wf(self) -> bool {
        self.data_bytes == spec_bytes_sum(self.data@) && self.offset_elements
            <= self.data@.len()
    }

    /// The buffered blobs, oldest first.
    pub closed spec fn spec_data(self) -> Seq<Vec<u8>> {
        self.data@
    }

    /// How many of the oldest blobs the last fetch handed out.
    pub closed spec fn spec_offset(self) -> int {
        self.offset_elements as int
    }

    /// The eviction budget this buffer was created with.
    pub closed spec fn spec_budget(self) -> int {
        self.payload_buffer_bytes as int
    }

    /// An empty buffer with the given eviction budget in bytes.
    pub fn new(payload_buffer_bytes: usize) -> (r: InputBufferImpl)
        ensures
            r.wf(),
            r.spec_data().len() == 0,
            r.spec_offset() == 0,
            r.spec_budget() == payload_buffer_bytes,
    {
        InputBufferImpl {
            data: Vec::new(),
            data_bytes: 0,
            offset_elements: 0,
            payload_buffer_bytes,
        }
    }

    /// Appends one blob, evicting the oldest blobs first until the total
    /// stays within the byte budget. A blob larger than the whole budget
    /// is the feeding layer's error and is excluded.
    pub fn add(&mut self, payload: Vec<u8>)
        requires
            old(self).wf(),
            payload@.len() <= old(self).spec_budget(),
        ensures
            final(self).wf(),
            final(self).spec_budget() == old(self).spec_budget(),
            spec_bytes_sum(final(self).spec_data()) <= final(self).spec_budget(),
            exists|k: int|
                #[trigger] spec_evicted(
                    old(self).spec_data(),
                    old(self).spec_offset(),
                    old(self).spec_budget(),
                    payload,
                    final(self).spec_data(),
                    final(self).spec_offset(),
                    k,
                ),
    {
        let payload_bytes = payload.len();
        let max_data_bytes = self.payload_buffer_bytes - payload_bytes;
        let ghost pre = self.data@;
        let ghost pre_offset = self.offset_elements as int;
        let initial_len = self.data.len();
        let mut dropped: usize = 0;
        proof {
            assert(pre.len() == initial_len);
            assert(pre.subrange(0, pre.len() as int) =~= pre);
        }
        while self.data_bytes > max_data_bytes
            invariant
                0 <= dropped <= pre.len(),
                self.data@ == pre.subrange(dropped as int, pre.len() as int),
                self.data_bytes == spec_bytes_sum(self.data@),
                self.offset_elements <= self.data@.len() || self.offset_elements == 0,
                self.offset_elements == (if pre_offset >= dropped as int {
                    pre_offset - dropped as int
                } else {
                    0
                }),
                self.payload_buffer_bytes == old(self).payload_buffer_bytes,
                max_data_bytes == self.payload_buffer_bytes - payload_bytes,
                payload_bytes <= self.payload_buffer_bytes,
                dropped > 0 ==> spec_bytes_sum(pre.subrange(dropped - 1, pre.len() as int))
                    > max_data_bytes,
                old(self).offset_elements <= pre.len(),
                pre.len() == initial_len,
            decreases self.data@.len(),
        {
            proof {
                if self.data@.len() == 0 {
                    assert(spec_bytes_sum(self.data@) == 0);
                }
                assert(self.data@.len() > 0);
                assert(dropped < pre.len());
                lemma_sum_front(self.data@);
                lemma_sum_nonneg(self.data@.subrange(1, self.data@.len() as int));
            }
            let evicted = self.data.remove(0);
            proof {
                assert(self.data@ =~= pre.subrange(dropped + 1, pre.len() as int));
            }
            self.data_bytes = self.data_bytes - evicted.len();
            if self.offset_elements > 0 {
                self.offset_elements = self.offset_elements - 1;
            }
            dropped = dropped + 1;
        }
        self.data_bytes = self.data_bytes + payload_bytes;
        self.data.push(payload);
        proof {
            let k = dropped as int;
            assert(self.data@.drop_last() =~= pre.subrange(k, pre.len() as int));
            assert(self.data@.last() == payload);
            assert(self.offset_elements <= self.data@.len());
            assert(self.data@ =~= pre.subrange(k, pre.len() as int).push(payload));
            assert(spec_bytes_sum(pre.subrange(k, pre.len() as int)) + payload@.len()
                <= old(self).spec_budget());
            assert(spec_evicted(
                old(self).spec_data(),
                old(self).spec_offset(),
                old(self).spec_budget(),
                payload,
                self.spec_data(),
                self.spec_offset(),
                k,
            ));
            assert(exists|k2: int|
                spec_evicted(
                    old(self).spec_data(),
                    old(self).spec_offset(),
                    old(self).spec_budget(),
                    payload,
                    self.spec_data(),
                    self.spec_offset(),
                    k2,
                ));
        }
    }

    /// Drops the blobs the last fetch handed out: the round that took
    /// them committed.
    fn commit_offset(&mut self)
        requires
            old(self).wf(),
        ensures
            final(self).wf(),
            final(self).spec_budget() == old(self).spec_budget(),
            final(self).spec_data() == old(self).spec_data().subrange(
                old(self).spec_offset(),
                old(self).spec_data().len() as int,
            ),
            final(self).spec_offset() == 0,
    {
        let ghost pre = self.data@;
        let ghost n = self.offset_elements as int;
        let mut committed: usize = 0;
        proof {
            assert(pre.subrange(0, pre.len() as int) =~= pre);
        }
        while committed < self.offset_elements
            invariant
                0 <= committed <= n <= pre.len(),
                n == self.offset_elements as int,
                self.data@ == pre.subrange(committed as int, pre.len() as int),
                self.data_bytes == spec_bytes_sum(self.data@),
                self.payload_buffer_bytes == old(self).payload_buffer_bytes,
            decreases n - committed,
        {
            proof {
                lemma_sum_front(self.data@);
                lemma_sum_nonneg(self.data@.subrange(1, self.data@.len() as int));
            }
            let evicted = self.data.remove(0);
            proof {
                assert(self.data@ =~= pre.subrange(committed + 1, pre.len() as int));
            }
            self.data_bytes = self.data_bytes - evicted.len();
            committed = committed + 1;
        }
        self.offset_elements = 0;
    }

    /// Hands out the longest prefix of buffered blobs whose total stays
    /// within the batch byte budget, and remembers it for replay.
    /// `only_fresh` first commits the previously fetched batch; without
    /// it the same blobs are repeated, for a round that failed.
    pub fn fetch(&mut self, only_fresh: bool) -> (r: Vec<Vec<u8>>)
        requires
            old(self).wf(),
        ensures
            final(self).wf(),
            final(self).spec_budget() == old(self).spec_budget(),
            ({
                let base = if only_fresh {
                    old(self).spec_data().subrange(
                        old(self).spec_offset(),
                        old(self).spec_data().len() as int,
                    )
                } else {
                    old(self).spec_data()
                };
                &&& final(self).spec_data() == base
                &&& final(self).spec_offset() == r@.len()
                &&& r@.len() <= base.len()
                &&& (forall|i: int| #![trigger r@[i]] 0 <= i < r@.len() ==> r@[i]@ == base[i]@)
                &&& spec_bytes_sum(base.subrange(0, r@.len() as int))
                    <= PAYLOAD_BATCH_BYTES
                &&& (r@.len() < base.len() ==> spec_bytes_sum(
                    base.subrange(0, r@.len() as int + 1),
                ) > PAYLOAD_BATCH_BYTES)
            }),
    {
        if only_fresh {
            self.commit_offset();
        }
        let ghost base = self.data@;
        let mut taken_bytes: usize = 0;
        let mut r: Vec<Vec<u8>> = Vec::new();
        let mut i: usize = 0;
        let mut stopped = false;
        proof {
            assert(base.subrange(0, 0) =~= Seq::<Vec<u8>>::empty());
        }
        while i < self.data.len() && !stopped
            invariant
                0 <= i <= base.len(),
                self.data@ == base,
                self.data_bytes == spec_bytes_sum(self.data@),
                self.payload_buffer_bytes == old(self).payload_buffer_bytes,
                r@.len() == i,
                forall|j: int| 0 <= j < i ==> r@[j]@ == base[j]@,
                taken_bytes == spec_bytes_sum(base.subrange(0, i as int)),
                taken_bytes <= PAYLOAD_BATCH_BYTES,
                stopped ==> i < base.len() && spec_bytes_sum(base.subrange(0, i + 1))
                    > PAYLOAD_BATCH_BYTES,
            decreases base.len() - i, (if stopped {
                0int
            } else {
                1int
            }),
        {
            let blob_len = self.data[i].len();
            proof {
                assert(base.subrange(0, i + 1).drop_last() =~= base.subrange(0, i as int));
                assert(base.subrange(0, i + 1).last() == base[i as int]);
                lemma_sum_nonneg(base.subrange(0, i as int));
            }
            if blob_len > PAYLOAD_BATCH_BYTES - taken_bytes {
                stopped = true;
            } else {
                taken_bytes = taken_bytes + blob_len;
                let blob = crate::point::clone_bytes(&self.data[i]);
                r.push(blob);
                i = i + 1;
            }
        }
        self.offset_elements = r.len();
        r
    }
}

/// Upper byte size of one externally submitted message.
pub const EXTERNAL_MSG_MAX_BYTES: usize = 65536;

/// Relies on `rand::thread_rng` and `rand::RngCore::fill_bytes`: bytes of
/// the requested length; nothing is assumed of their values.
#[verifier::external_body]
fn random_bytes(len: usize) -> (r: Vec<u8>)
    ensures
        r@.len() == len,
{
    let mut data = vec![0u8; len];
    rand::RngCore::fill_bytes(&mut rand::thread_rng(), data.as_mut_slice());
    data
}

/// A stand-in payload source for load tests: each fetch yields a batch of
/// arbitrary fixed-size blobs whose count ramps up step by step until the
/// batch budget is full.
pub struct InputBufferStub {
    fetch_count: usize,
    steps_until_full: usize,
    points_in_step: usize,
}

/// The blob count of one stub batch after `fetch_count` fetches.
pub open spec fn spec_stub_count(fetch_count: int, points_in_step: int, steps_until_full: int) -> int {
    let step = if fetch_count / points_in_step < steps_until_full {
        fetch_count / points_in_step
    } else {
        steps_until_full
    };
    (PAYLOAD_BATCH_BYTES as int) * step / steps_until_full / (EXTERNAL_MSG_MAX_BYTES as int)
}

impl InputBufferStub {
    /// The ramp parameters stay usable: positive, and small enough that
    /// the ramp arithmetic fits the machine.
    pub closed spec fn wf(self) -> bool {
        self.points_in_step > 0 && self.steps_until_full > 0 && self.steps_until_full
            <= usize::MAX as int / (PAYLOAD_BATCH_BYTES as int)
    }

    /// How many batches were fetched so far.
    pub closed spec fn spec_fetch_count(self) -> int {
        self.fetch_count as int
    }

    pub closed spec fn spec_points_in_step(self) -> int {
        self.points_in_step as int
    }

    pub closed spec fn spec_steps_until_full(self) -> int {
        self.steps_until_full as int
    }

    /// A fresh stub that ramps up over the given number of steps.
    pub fn new(points_in_step: usize, steps_until_full: usize) -> (r: InputBufferStub)
        requires
            points_in_step > 0,
            steps_until_full > 0,
            steps_until_full <= usize::MAX as int / (PAYLOAD_BATCH_BYTES as int),
        ensures
            r.wf(),
            r.spec_fetch_count() == 0,
            r.spec_points_in_step() == points_in_step,
            r.spec_steps_until_full() == steps_until_full,
    {
        InputBufferStub { fetch_count: 0, steps_until_full, points_in_step }
    }

    /// One batch of arbitrary blobs, its count set by the ramp.
    pub fn fetch(&mut self) -> (r: Vec<Vec<u8>>)
        requires
            old(self).wf(),
        ensures
            final(self).wf(),
            final(self).spec_fetch_count() == (if old(self).spec_fetch_count() < usize::MAX {
                old(self).spec_fetch_count() + 1
            } else {
                old(self).spec_fetch_count()
            }),
            final(self).spec_points_in_step() == old(self).spec_points_in_step(),
            final(self).spec_steps_until_full() == old(self).spec_steps_until_full(),
            r@.len() == spec_stub_count(
                final(self).spec_fetch_count(),
                final(self).spec_points_in_step(),
                final(self).spec_steps_until_full(),
            ),
            forall|i: int| 0 <= i < r@.len() ==> (#[trigger] r@[i])@.len() == EXTERNAL_MSG_MAX_BYTES,
    {
        if self.fetch_count < usize::MAX {
            self.fetch_count = self.fetch_count + 1;
        }
        let raw_step = self.fetch_count / self.points_in_step;
        let step = if raw_step < self.steps_until_full {
            raw_step
        } else {
            self.steps_until_full
        };
        let msg_count = PAYLOAD_BATCH_BYTES * step / self.steps_until_full
            / EXTERNAL_MSG_MAX_BYTES;
        let mut r: Vec<Vec<u8>> = Vec::new();
        let mut i: usize = 0;
        while i < msg_count
            invariant
                0 <= i <= msg_count,
                r@.len() == i,
                forall|j: int|
                    0 <= j < i ==> (#[trigger] r@[j])@.len() == EXTERNAL_MSG_MAX_BYTES,
            decreases msg_count - i,
        {
            let blob = random_bytes(EXTERNAL_MSG_MAX_BYTES);
            r.push(blob);
            i = i + 1;
        }
        r
    }
}

} // verus!
