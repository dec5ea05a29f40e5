//! Identifiers and threshold arithmetic of the DAG protocol: rounds, peers,
//! digests, signatures, point locations and the committee-size-dependent
//! quorum counts.

use vstd::prelude::*;

verus! {

/// Round number of the very first (genesis) round of the chain.
pub const GENESIS_ROUND: u32 = 0;

/// A discrete global step of the protocol. Committee membership is a
/// function of the round number.
#[derive(Clone, Copy, PartialEq, Eq, Structural, Debug)]
pub struct Round(pub u32);

impl Round {
    /// The following round.
    pub fn next(self) -> (r: Round)
        requires
            self.0 < u32::MAX,
        ensures
            r.0 == self.0 + 1,
    {
        Round(self.0 + 1)
    }

    /// The preceding round; the bottom round number is its own predecessor.
    pub fn prev(self) -> (r: Round)
        ensures
            r.0 == if self.0 > 0 { (self.0 - 1) as u32 } else { 0u32 },
    {
        if self.0 > 0 {
            Round(self.0 - 1)
        } else {
            Round(0)
        }
    }
}

/// Logical/unix timestamp in milliseconds, non-decreasing per author.
#[derive(Clone, Copy, PartialEq, Eq, Structural, Debug)]
pub struct UnixTime(pub u64);

impl UnixTime {
    /// The later of the two timestamps.
    pub fn max(self, other: UnixTime) -> (r: UnixTime)
        ensures
            r.0 == if self.0 >= other.0 { self.0 } else { other.0 },
    {
        if self.0 >= other.0 {
            self
        } else {
            other
        }
    }
}

/// Compares two 32-byte strings.
pub fn bytes32_eq(a: &[u8; 32], b: &[u8; 32]) -> (r: bool)
    ensures
        r == (a@ == b@),
{
    let mut i: usize = 0;
    while i < 32
        invariant
            0 <= i <= 32,
            forall|j: int| 0 <= j < i ==> a@[j] == b@[j],
        decreases 32 - i,
    {
        if a[i] != b[i] {
            return false;
        }
        i = i + 1;
    }
    proof {
        assert(a@ =~= b@);
    }
    true
}

/// Committee member identity: an Ed25519 public key.
#[derive(Clone, Copy, Debug)]
pub struct PeerId(pub [u8; 32]);

impl View for PeerId {
    type V = Seq<u8>;

    open spec fn view(&self) -> Seq<u8> {
        self.0@
    }
}

impl PartialEq for PeerId {
    fn eq(&self, other: &Self) -> bool {
        bytes32_eq(&self.0, &other.0)
    }
}

impl Eq for PeerId {}

impl vstd::std_specs::cmp::PartialEqSpecImpl for PeerId {
    open spec fn obeys_eq_spec() -> bool {
        true
    }

    open spec fn eq_spec(&self, other: &Self) -> bool {
        self@ == other@
    }
}

/// Content hash of a point's body; identifies a point uniquely together
/// with its round and author.
#[derive(Clone, Copy, Debug)]
pub struct Digest(pub [u8; 32]);

impl View for Digest {
    type V = Seq<u8>;

    open spec fn view(&self) -> Seq<u8> {
        self.0@
    }
}

impl PartialEq for Digest {
    fn eq(&self, other: &Self) -> bool {
        bytes32_eq(&self.0, &other.0)
    }
}

impl Eq for Digest {}

impl vstd::std_specs::cmp::PartialEqSpecImpl for Digest {
    open spec fn obeys_eq_spec() -> bool {
        true
    }

    open spec fn eq_spec(&self, other: &Self) -> bool {
        self@ == other@
    }
}

/// An Ed25519 signature over a point digest.
#[derive(Clone, Copy, Debug)]
pub struct Signature(pub [u8; 64]);

impl View for Signature {
    type V = Seq<u8>;

    open spec fn view(&self) -> Seq<u8> {
        self.0@
    }
}

/// Position of a point in the DAG: one author's slot in one round.
#[derive(Clone, Copy, Debug)]
pub struct Location {
    pub round: Round,
    pub author: PeerId,
}

impl View for Location {
    type V = (u32, Seq<u8>);

    open spec fn view(&self) -> (u32, Seq<u8>) {
        (self.round.0, self.author@)
    }
}

impl PartialEq for Location {
    fn eq(&self, other: &Self) -> bool {
        self.round.0 == other.round.0 && self.author == other.author
    }
}

impl Eq for Location {}

impl vstd::std_specs::cmp::PartialEqSpecImpl for Location {
    open spec fn obeys_eq_spec() -> bool {
        true
    }

    open spec fn eq_spec(&self, other: &Self) -> bool {
        self@ == other@
    }
}

/// Globally unique identity of one point.
#[derive(Clone, Copy, Debug)]
pub struct PointId {
    pub location: Location,
    pub digest: Digest,
}

impl View for PointId {
    type V = ((u32, Seq<u8>), Seq<u8>);

    open spec fn view(&self) -> ((u32, Seq<u8>), Seq<u8>) {
        (self.location@, self.digest@)
    }
}

impl PartialEq for PointId {
    fn eq(&self, other: &Self) -> bool {
        self.location == other.location && self.digest == other.digest
    }
}

impl Eq for PointId {}

impl vstd::std_specs::cmp::PartialEqSpecImpl for PointId {
    open spec fn obeys_eq_spec() -> bool {
        true
    }

    open spec fn eq_spec(&self, other: &Self) -> bool {
        self@ == other@
    }
}

/// The round before `r`; the bottom round number is its own predecessor.
pub open spec fn spec_prev(r: u32) -> u32 {
    if r > 0 {
        (r - 1) as u32
    } else {
        0u32
    }
}

/// Quorum needed to back a point's `includes` in a committee of `n`.
pub open spec fn spec_majority(n: int) -> int {
    2 * ((n - 1) / 3) + 1
}

/// Evidence quorum excluding the proven point's own author.
pub open spec fn spec_majority_of_others(n: int) -> int {
    2 * ((n - 1) / 3)
}

/// Smallest count that must contain one honest member of a committee of
/// `n`.
pub open spec fn spec_reliable_minority(n: int) -> int {
    (n - 1) / 3 + 1
}

/// Committee-size-dependent quorum thresholds, derived from the count of
/// tolerated faulty members: `f = (n - 1) / 3` for a committee of `n`.
#[derive(Clone, Copy, PartialEq, Eq, Structural, Debug)]
pub struct NodeCount {
    faults: usize,
}

impl NodeCount {
    /// Tolerated faults for a committee of `total_peers` members.
    pub open spec fn spec_faults_of(total_peers: usize) -> int {
        (total_peers - 1) / 3
    }

    /// Threshold bookkeeping for the genesis committee, which consists of
    /// a single exempt author.
    pub fn genesis() -> (r: NodeCount)
        ensures
            r.spec_faults() == 0,
    {
        NodeCount { faults: 0 }
    }

    pub closed spec fn spec_faults(self) -> int {
        self.faults as int
    }

    /// The stored fault count is a machine integer, hence non-negative.
    pub proof fn lemma_faults_nonneg(self)
        ensures
            self.spec_faults() >= 0,
    {
    }

    /// Fails on a committee too small to run the protocol.
    pub fn try_from(total_peers: usize) -> (r: Option<NodeCount>)
        ensures
            r is Some <==> total_peers >= 3,
            r is Some ==> r->0.spec_faults() == Self::spec_faults_of(total_peers),
    {
        if total_peers >= 3 {
            Some(NodeCount { faults: (total_peers - 1) / 3 })
        } else {
            None
        }
    }

    /// Quorum needed to back a point's `includes`: `2f + 1`.
    pub fn majority(self) -> (r: usize)
        requires
            self.spec_faults() * 2 + 1 <= usize::MAX,
        ensures
            r == self.spec_faults() * 2 + 1,
    {
        self.faults * 2 + 1
    }

    /// Evidence quorum excluding the proven point's own author: `2f`.
    pub fn majority_of_others(self) -> (r: usize)
        requires
            self.spec_faults() * 2 <= usize::MAX,
        ensures
            r == self.spec_faults() * 2,
    {
        self.faults * 2
    }

    /// Smallest count that must contain one honest member: `f + 1`. Used to
    /// infer forward consensus progress without full local participation.
    pub fn reliable_minority(self) -> (r: usize)
        requires
            self.spec_faults() + 1 <= usize::MAX,
        ensures
            r == self.spec_faults() + 1,
    {
        self.faults + 1
    }
}

} // verus!
