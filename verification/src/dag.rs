//! The round ledger: an append-only window of per-round slots, one
//! location per committee member and one memoized validation slot per
//! digest. The window is the ownership boundary that bounds memory: a
//! round older than the retention depth is dropped as a unit when the
//! round pointer advances, so nothing reachable from the ledger pins
//! unbounded history.

use vstd::prelude::*;

use crate::anchor_stage::AnchorStage;
use crate::deps_check::spec_dep_well_formed;
use crate::models::{Digest, NodeCount, PeerId, Round, GENESIS_ROUND};
use crate::point::{spec_well_formed, DagPoint, Point, ValidPoint};

verus! {

/// The memoized outcome of one (round, author, digest): a resolution task
/// exists but has not finished, or the terminal verdict is cached.
pub enum Slot {
    Pending,
    Done(DagPoint),
}

/// Per (round, author) bookkeeping: one slot per broadcast digest, a flag
/// for a bad broadcast signature, and the local node's signature decision
/// over this location, if any, with the round at which it was made.
pub struct DagLocation {
    pub versions: Vec<(Digest, Slot)>,
    pub bad_sig_in_broadcast: bool,
    pub signed: Option<(u32, bool)>,
}

impl DagLocation {
    /// Whether a slot for `d` exists at this location.
    pub open spec fn spec_has_version(self, d: Seq<u8>) -> bool {
        exists|i: int| 0 <= i < self.versions@.len() && self.versions@[i].0@ == d
    }

    /// The slot stored under `d`; meaningful only when `spec_has_version`.
    pub open spec fn spec_version(self, d: Seq<u8>) -> Slot {
        self.versions@[choose|i: int|
            0 <= i < self.versions@.len() && self.versions@[i].0@ == d].1
    }

    /// Whether this location's slots are keyed uniquely.
    pub open spec fn spec_versions_distinct(self) -> bool {
        forall|i: int, j: int|
            0 <= i < j < self.versions@.len() ==> self.versions@[i].0@ != self.versions@[j].0@
    }

    /// The index of the slot stored under `digest`.
    fn version_index(&self, digest: &Digest) -> (r: Option<usize>)
        requires
            self.spec_versions_distinct(),
        ensures
            r is Some <==> self.spec_has_version(digest@),
            r is Some ==> 0 <= r->0 < self.versions@.len() && self.versions@[r->0 as int].0@
                == digest@ && self.spec_version(digest@) == self.versions@[r->0 as int].1,
    {
        let mut i: usize = 0;
        while i < self.versions.len()
            invariant
                0 <= i <= self.versions@.len(),
                self.spec_versions_distinct(),
                forall|j: int| 0 <= j < i ==> self.versions@[j].0@ != digest@,
            decreases self.versions@.len() - i,
        {
            if self.versions[i].0 == *digest {
                proof {
                    let w = choose|k: int|
                        0 <= k < self.versions@.len() && self.versions@[k].0@ == digest@;
                    assert(self.versions@[i as int].0@ == digest@);
                    assert(w == i as int);
                }
                return Some(i);
            }
            i = i + 1;
        }
        None
    }

    /// The slot stored under `digest`, if any.
    pub fn get_version(&self, digest: &Digest) -> (r: Option<&Slot>)
        requires
            self.spec_versions_distinct(),
        ensures
            r is Some <==> self.spec_has_version(digest@),
            r is Some ==> *r->0 == self.spec_version(digest@),
    {
        let mut i: usize = 0;
        while i < self.versions.len()
            invariant
                0 <= i <= self.versions@.len(),
                self.spec_versions_distinct(),
                forall|j: int| 0 <= j < i ==> self.versions@[j].0@ != digest@,
            decreases self.versions@.len() - i,
        {
            if self.versions[i].0 == *digest {
                proof {
                    let w = choose|k: int|
                        0 <= k < self.versions@.len() && self.versions@[k].0@ == digest@;
                    assert(self.versions@[i as int].0@ == digest@);
                    assert(w == i as int);
                }
                return Some(&self.versions[i].1);
            }
            i = i + 1;
        }
        None
    }
}

/// One committee-wide slot of the ledger.
pub struct DagRound {
    pub round: Round,
    pub node_count: NodeCount,
    pub anchor_stage: Option<AnchorStage>,
    pub locations: Vec<(PeerId, DagLocation)>,
}

/// Whether a cached verdict speaks of the slot it is stored under, and
/// its valid point, if any, is structurally well-formed.
pub open spec fn spec_slot_ok(r: u32, a: Seq<u8>, d: Seq<u8>, s: Slot) -> bool {
    match s {
        Slot::Pending => true,
        Slot::Done(dp) => dp.spec_location()@ == (r, a) && dp.spec_digest()@ == d
            && crate::deps_check::spec_dep_well_formed(dp),
    }
}

/// Whether one location's slots are keyed uniquely and each cached
/// verdict matches its key.
pub open spec fn spec_location_ok(r: u32, a: Seq<u8>, loc: DagLocation) -> bool {
    (forall|i: int, j: int|
        0 <= i < j < loc.versions@.len() ==> loc.versions@[i].0@ != loc.versions@[j].0@)
        && (forall|i: int|
        0 <= i < loc.versions@.len() ==> spec_slot_ok(
            r,
            a,
            loc.versions@[i].0@,
            #[trigger] loc.versions@[i].1,
        ))
}

/// Whether one round's locations are keyed uniquely and each is sound.
pub open spec fn spec_round_ok(round: DagRound) -> bool {
    (forall|i: int, j: int|
        0 <= i < j < round.locations@.len() ==> round.locations@[i].0@
            != round.locations@[j].0@) && (forall|i: int|
        0 <= i < round.locations@.len() ==> spec_location_ok(
            round.round.0,
            round.locations@[i].0@,
            #[trigger] round.locations@[i].1,
        ))
}

/// Appending a fresh slot to a location keeps it sound and touches no
/// other slot.
proof fn lemma_location_push(pre: DagLocation, post: DagLocation, d: Digest, s: Slot, r: u32, a: Seq<u8>)
    requires
        spec_location_ok(r, a, pre),
        !pre.spec_has_version(d@),
        post.versions@ == pre.versions@.push((d, s)),
        post.bad_sig_in_broadcast == pre.bad_sig_in_broadcast,
        post.signed == pre.signed,
        spec_slot_ok(r, a, d@, s),
    ensures
        spec_location_ok(r, a, post),
        post.spec_has_version(d@),
        post.spec_version(d@) == s,
        forall|d2: Seq<u8>| d2 != d@ ==> post.spec_has_version(d2) == pre.spec_has_version(d2),
        forall|d2: Seq<u8>|
            d2 != d@ && pre.spec_has_version(d2) ==> post.spec_version(d2) == pre.spec_version(
                d2,
            ),
{
    let n = pre.versions@.len() as int;
    assert(post.versions@[n].0@ == d@);
    assert forall|i: int, j: int|
        0 <= i < j < post.versions@.len() implies post.versions@[i].0@
        != post.versions@[j].0@ by {
        if j < n {
            assert(pre.versions@[i].0@ != pre.versions@[j].0@);
        } else {
            assert(pre.versions@[i].0@ == post.versions@[i].0@);
        }
    }
    assert forall|i: int|
        0 <= i < post.versions@.len() implies spec_slot_ok(
        r,
        a,
        post.versions@[i].0@,
        #[trigger] post.versions@[i].1,
    ) by {
        if i < n {
            assert(post.versions@[i] == pre.versions@[i]);
            assert(spec_slot_ok(r, a, pre.versions@[i].0@, pre.versions@[i].1));
        }
    }
    let w = choose|k: int| 0 <= k < post.versions@.len() && post.versions@[k].0@ == d@;
    if w < n {
        assert(pre.versions@[w].0@ == d@);
    }
    assert(w == n);
    assert forall|d2: Seq<u8>|
        d2 != d@ implies post.spec_has_version(d2) == pre.spec_has_version(d2) by {
        if post.spec_has_version(d2) {
            let k = choose|k: int|
                0 <= k < post.versions@.len() && post.versions@[k].0@ == d2;
            assert(k != n);
            assert(pre.versions@[k].0@ == d2);
        }
        if pre.spec_has_version(d2) {
            let k = choose|k: int| 0 <= k < pre.versions@.len() && pre.versions@[k].0@ == d2;
            assert(post.versions@[k].0@ == d2);
        }
    }
    assert forall|d2: Seq<u8>|
        d2 != d@ && pre.spec_has_version(d2) implies post.spec_version(d2)
        == pre.spec_version(d2) by {
        let k1 = choose|k: int| 0 <= k < pre.versions@.len() && pre.versions@[k].0@ == d2;
        let k2 = choose|k: int| 0 <= k < post.versions@.len() && post.versions@[k].0@ == d2;
        assert(post.versions@[k1].0@ == d2);
        if k1 != k2 {
            assert(post.versions@[k2].0@ == d2);
            if k2 < n {
                assert(pre.versions@[k2].0@ == d2);
            }
        }
        assert(k1 == k2);
    }
}

/// Replacing one slot's verdict, keyed as before, keeps the location
/// sound and touches no other slot.
proof fn lemma_location_update(
    pre: DagLocation,
    post: DagLocation,
    vi: int,
    s: Slot,
    r: u32,
    a: Seq<u8>,
)
    requires
        spec_location_ok(r, a, pre),
        0 <= vi < pre.versions@.len(),
        post.versions@ == pre.versions@.update(vi, (pre.versions@[vi].0, s)),
        post.bad_sig_in_broadcast == pre.bad_sig_in_broadcast,
        post.signed == pre.signed,
        spec_slot_ok(r, a, pre.versions@[vi].0@, s),
    ensures
        spec_location_ok(r, a, post),
        post.spec_has_version(pre.versions@[vi].0@),
        post.spec_version(pre.versions@[vi].0@) == s,
        forall|d2: Seq<u8>| post.spec_has_version(d2) == pre.spec_has_version(d2),
        forall|d2: Seq<u8>|
            d2 != pre.versions@[vi].0@ && pre.spec_has_version(d2) ==> post.spec_version(d2)
                == pre.spec_version(d2),
{
    let d = pre.versions@[vi].0@;
    assert(forall|i: int|
        0 <= i < post.versions@.len() ==> post.versions@[i].0 == pre.versions@[i].0);
    assert forall|i: int, j: int|
        0 <= i < j < post.versions@.len() implies post.versions@[i].0@
        != post.versions@[j].0@ by {
        assert(pre.versions@[i].0@ != pre.versions@[j].0@);
    }
    assert forall|i: int|
        0 <= i < post.versions@.len() implies spec_slot_ok(
        r,
        a,
        post.versions@[i].0@,
        #[trigger] post.versions@[i].1,
    ) by {
        if i != vi {
            assert(post.versions@[i] == pre.versions@[i]);
            assert(spec_slot_ok(r, a, pre.versions@[i].0@, pre.versions@[i].1));
        }
    }
    assert forall|d2: Seq<u8>|
        post.spec_has_version(d2) == pre.spec_has_version(d2) by {
        if post.spec_has_version(d2) {
            let k = choose|k: int|
                0 <= k < post.versions@.len() && post.versions@[k].0@ == d2;
            assert(pre.versions@[k].0@ == d2);
        }
        if pre.spec_has_version(d2) {
            let k = choose|k: int| 0 <= k < pre.versions@.len() && pre.versions@[k].0@ == d2;
            assert(post.versions@[k].0@ == d2);
        }
    }
    let w = choose|k: int| 0 <= k < post.versions@.len() && post.versions@[k].0@ == d;
    if w != vi {
        assert(pre.versions@[w].0@ == d);
        assert(pre.versions@[vi].0@ == d);
    }
    assert(w == vi);
    assert forall|d2: Seq<u8>|
        d2 != d && pre.spec_has_version(d2) implies post.spec_version(d2) == pre.spec_version(
        d2,
    ) by {
        let k1 = choose|k: int| 0 <= k < pre.versions@.len() && pre.versions@[k].0@ == d2;
        let k2 = choose|k: int| 0 <= k < post.versions@.len() && post.versions@[k].0@ == d2;
        assert(post.versions@[k1].0@ == d2);
        if k1 != k2 {
            assert(post.versions@[k2].0@ == d2);
            assert(pre.versions@[k2].0@ == d2);
        }
        assert(k1 == k2);
        assert(k1 != vi);
    }
}

/// Whether `post` differs from `pre` in at most the location of `a`:
/// round identity and every other location are untouched.
pub open spec fn spec_round_frame(pre: DagRound, post: DagRound, a: Seq<u8>) -> bool {
    post.round == pre.round && post.node_count == pre.node_count && post.anchor_stage
        == pre.anchor_stage && post.locations@.len() == pre.locations@.len() && (forall|
        a2: Seq<u8>,
    |
        post.spec_has_loc(a2) == pre.spec_has_loc(a2)) && (forall|a2: Seq<u8>|
        a2 != a && pre.spec_has_loc(a2) ==> post.spec_loc(a2) == pre.spec_loc(a2))
}

impl DagRound {
    /// Whether this round has a location for `a`.
    pub open spec fn spec_has_loc(self, a: Seq<u8>) -> bool {
        exists|i: int| 0 <= i < self.locations@.len() && self.locations@[i].0@ == a
    }

    /// The location of `a`; meaningful only when `spec_has_loc`.
    pub open spec fn spec_loc(self, a: Seq<u8>) -> DagLocation {
        self.locations@[choose|i: int|
            0 <= i < self.locations@.len() && self.locations@[i].0@ == a].1
    }

    /// The index of `author`'s location.
    fn loc_index(&self, author: &PeerId) -> (r: Option<usize>)
        requires
            spec_round_ok(*self),
        ensures
            r is Some <==> self.spec_has_loc(author@),
            r is Some ==> 0 <= r->0 < self.locations@.len() && self.locations@[r->0 as int].0@
                == author@ && self.spec_loc(author@) == self.locations@[r->0 as int].1,
    {
        let mut i: usize = 0;
        while i < self.locations.len()
            invariant
                0 <= i <= self.locations@.len(),
                spec_round_ok(*self),
                forall|j: int| 0 <= j < i ==> self.locations@[j].0@ != author@,
            decreases self.locations@.len() - i,
        {
            if self.locations[i].0 == *author {
                proof {
                    let w = choose|k: int|
                        0 <= k < self.locations@.len() && self.locations@[k].0@ == author@;
                    assert(self.locations@[i as int].0@ == author@);
                    assert(w == i as int);
                }
                return Some(i);
            }
            i = i + 1;
        }
        None
    }

    /// The location of `author`, if this round has one.
    pub fn get_location(&self, author: &PeerId) -> (r: Option<&DagLocation>)
        requires
            spec_round_ok(*self),
        ensures
            r is Some <==> self.spec_has_loc(author@),
            r is Some ==> *r->0 == self.spec_loc(author@),
    {
        match self.loc_index(author) {
            Some(i) => Some(&self.locations[i].1),
            None => None,
        }
    }

    /// Inserts the author's own freshly produced point without
    /// re-validating it: local production is trusted by construction. A
    /// second insertion for the same author and round is a caller error.
    pub fn insert_own(&mut self, point: Point)
        requires
            spec_round_ok(*old(self)),
            point.body.location.round.0 == old(self).round.0,
            old(self).spec_has_loc(point.body.location.author@),
            old(self).spec_loc(point.body.location.author@).versions@.len() == 0,
            spec_well_formed(point.body),
        ensures
            spec_round_ok(*final(self)),
            spec_round_frame(*old(self), *final(self), point.body.location.author@),
            final(self).spec_loc(point.body.location.author@).spec_has_version(point.digest@),
            final(self).spec_loc(point.body.location.author@).spec_version(point.digest@)
                == Slot::Done(DagPoint::Trusted(ValidPoint { point })),
    {
        let ghost a = point.body.location.author@;
        let ghost d = point.digest@;
        let li = self.loc_index(&point.body.location.author).unwrap();
        let ghost pre = *self;
        let digest = point.digest;
        let mut pair = self.locations.remove(li);
        let ghost preloc = pair.1;
        pair.1.versions.push((digest, Slot::Done(DagPoint::Trusted(ValidPoint { point }))));
        let ghost newloc = pair.1;
        self.locations.insert(li, pair);
        proof {
            assert(self.locations@ =~= pre.locations@.update(
                li as int,
                (pre.locations@[li as int].0, newloc),
            ));
            assert(preloc.versions@.len() == 0);
            assert(!preloc.spec_has_version(d));
            lemma_location_push(
                preloc,
                newloc,
                digest,
                Slot::Done(DagPoint::Trusted(ValidPoint { point })),
                pre.round.0,
                a,
            );
            lemma_round_update(pre, *self, li as int, newloc);
        }
    }

    /// Records a peer broadcast that already passed phase-one
    /// verification: a fresh digest opens one resolution task for the
    /// slot; a digest already known changes nothing — the existing task
    /// absorbs the broadcast, so an equivocation is resolved against the
    /// first version rather than overwritten.
    pub fn add_broadcast(&mut self, author: &PeerId, digest: &Digest) -> (created: bool)
        requires
            spec_round_ok(*old(self)),
            old(self).spec_has_loc(author@),
        ensures
            spec_round_ok(*final(self)),
            created == !old(self).spec_loc(author@).spec_has_version(digest@),
            !created ==> *final(self) == *old(self),
            created ==> spec_round_frame(*old(self), *final(self), author@)
                && final(self).spec_loc(author@).spec_has_version(digest@)
                && final(self).spec_loc(author@).spec_version(digest@) == Slot::Pending
                && (forall|d2: Seq<u8>|
                    d2 != digest@ ==> final(self).spec_loc(author@).spec_has_version(d2)
                        == old(self).spec_loc(author@).spec_has_version(d2))
                && (forall|d2: Seq<u8>|
                    d2 != digest@ && old(self).spec_loc(author@).spec_has_version(d2)
                        ==> final(self).spec_loc(author@).spec_version(d2)
                            == old(self).spec_loc(author@).spec_version(d2)),
    {
        let li = self.loc_index(author).unwrap();
        let exists_already = self.locations[li].1.get_version(digest).is_some();
        if exists_already {
            return false;
        }
        let ghost pre = *self;
        let mut pair = self.locations.remove(li);
        let ghost preloc = pair.1;
        pair.1.versions.push((*digest, Slot::Pending));
        let ghost newloc = pair.1;
        self.locations.insert(li, pair);
        proof {
            assert(self.locations@ =~= pre.locations@.update(
                li as int,
                (pre.locations@[li as int].0, newloc),
            ));
            lemma_location_push(preloc, newloc, *digest, Slot::Pending, pre.round.0, author@);
            lemma_round_update(pre, *self, li as int, newloc);
        }
        true
    }

    /// Returns the shared slot for a referenced point during recursive
    /// validation, creating a resolution task if none exists yet. A slot
    /// already present — pending or resolved — is reused untouched, so
    /// any number of dependents share exactly one computation.
    pub fn add_dependency(&mut self, author: &PeerId, digest: &Digest) -> (created: bool)
        requires
            spec_round_ok(*old(self)),
            old(self).spec_has_loc(author@),
        ensures
            spec_round_ok(*final(self)),
            created == !old(self).spec_loc(author@).spec_has_version(digest@),
            !created ==> *final(self) == *old(self),
            created ==> spec_round_frame(*old(self), *final(self), author@)
                && final(self).spec_loc(author@).spec_has_version(digest@)
                && final(self).spec_loc(author@).spec_version(digest@) == Slot::Pending
                && (forall|d2: Seq<u8>|
                    d2 != digest@ ==> final(self).spec_loc(author@).spec_has_version(d2)
                        == old(self).spec_loc(author@).spec_has_version(d2))
                && (forall|d2: Seq<u8>|
                    d2 != digest@ && old(self).spec_loc(author@).spec_has_version(d2)
                        ==> final(self).spec_loc(author@).spec_version(d2)
                            == old(self).spec_loc(author@).spec_version(d2)),
    {
        self.add_broadcast(author, digest)
    }

    /// Caches the terminal verdict of one slot's resolution task.
    pub fn resolve(&mut self, author: &PeerId, digest: &Digest, verdict: DagPoint)
        requires
            spec_round_ok(*old(self)),
            old(self).spec_has_loc(author@),
            old(self).spec_loc(author@).spec_has_version(digest@),
            old(self).spec_loc(author@).spec_version(digest@) is Pending,
            verdict.spec_location()@ == (old(self).round.0, author@),
            verdict.spec_digest()@ == digest@,
            spec_dep_well_formed(verdict),
        ensures
            spec_round_ok(*final(self)),
            spec_round_frame(*old(self), *final(self), author@),
            final(self).spec_loc(author@).spec_has_version(digest@),
            final(self).spec_loc(author@).spec_version(digest@) == Slot::Done(verdict),
            forall|d2: Seq<u8>|
                final(self).spec_loc(author@).spec_has_version(d2)
                    == old(self).spec_loc(author@).spec_has_version(d2),
            forall|d2: Seq<u8>|
                d2 != digest@ && old(self).spec_loc(author@).spec_has_version(d2)
                    ==> final(self).spec_loc(author@).spec_version(d2)
                        == old(self).spec_loc(author@).spec_version(d2),
    {
        let li = self.loc_index(author).unwrap();
        let ghost pre = *self;
        let mut pair = self.locations.remove(li);
        let ghost preloc = pair.1;
        let vi = pair.1.version_index(digest).unwrap();
        let entry = pair.1.versions.remove(vi);
        pair.1.versions.insert(vi, (entry.0, Slot::Done(verdict)));
        let ghost newloc = pair.1;
        self.locations.insert(li, pair);
        proof {
            assert(newloc.versions@ =~= preloc.versions@.update(
                vi as int,
                (preloc.versions@[vi as int].0, Slot::Done(verdict)),
            ));
            lemma_location_update(
                preloc,
                newloc,
                vi as int,
                Slot::Done(verdict),
                pre.round.0,
                author@,
            );
            assert(self.locations@ =~= pre.locations@.update(
                li as int,
                (pre.locations@[li as int].0, newloc),
            ));
            lemma_round_update(pre, *self, li as int, newloc);
        }
    }

    /// Remembers that a broadcast at this location carried a bad
    /// signature.
    pub fn set_bad_sig(&mut self, author: &PeerId)
        requires
            spec_round_ok(*old(self)),
            old(self).spec_has_loc(author@),
        ensures
            spec_round_ok(*final(self)),
            spec_round_frame(*old(self), *final(self), author@),
            final(self).spec_loc(author@).bad_sig_in_broadcast == true,
            final(self).spec_loc(author@).versions@ == old(self).spec_loc(author@).versions@,
            final(self).spec_loc(author@).signed == old(self).spec_loc(author@).signed,
    {
        let li = self.loc_index(author).unwrap();
        let ghost pre = *self;
        let mut pair = self.locations.remove(li);
        let ghost preloc = pair.1;
        pair.1.bad_sig_in_broadcast = true;
        let ghost newloc = pair.1;
        self.locations.insert(li, pair);
        proof {
            assert(self.locations@ =~= pre.locations@.update(
                li as int,
                (pre.locations@[li as int].0, newloc),
            ));
            assert(spec_location_ok(pre.round.0, author@, preloc));
            lemma_round_update(pre, *self, li as int, newloc);
        }
    }

    /// Records the local node's signature decision over this location:
    /// the round at which it was made and whether the point was accepted.
    /// The first decision is kept.
    pub fn mark_signed(&mut self, author: &PeerId, at_round: u32, accepted: bool)
        requires
            spec_round_ok(*old(self)),
            old(self).spec_has_loc(author@),
        ensures
            spec_round_ok(*final(self)),
            spec_round_frame(*old(self), *final(self), author@),
            final(self).spec_loc(author@).signed == (match old(self).spec_loc(author@).signed {
                Some(prior) => Some(prior),
                None => Some((at_round, accepted)),
            }),
            final(self).spec_loc(author@).versions@ == old(self).spec_loc(author@).versions@,
            final(self).spec_loc(author@).bad_sig_in_broadcast == old(self).spec_loc(
                author@,
            ).bad_sig_in_broadcast,
    {
        let li = self.loc_index(author).unwrap();
        let ghost pre = *self;
        let mut pair = self.locations.remove(li);
        let ghost preloc = pair.1;
        if pair.1.signed.is_none() {
            pair.1.signed = Some((at_round, accepted));
        }
        let ghost newloc = pair.1;
        self.locations.insert(li, pair);
        proof {
            assert(self.locations@ =~= pre.locations@.update(
                li as int,
                (pre.locations@[li as int].0, newloc),
            ));
            assert(spec_location_ok(pre.round.0, author@, preloc));
            lemma_round_update(pre, *self, li as int, newloc);
        }
    }
}

/// Replacing one location's content, keyed as before, preserves the
/// round's soundness and touches nothing else.
proof fn lemma_round_update(pre: DagRound, post: DagRound, li: int, newloc: DagLocation)
    requires
        spec_round_ok(pre),
        0 <= li < pre.locations@.len(),
        post.locations@ == pre.locations@.update(li, (pre.locations@[li].0, newloc)),
        post.round == pre.round,
        post.node_count == pre.node_count,
        post.anchor_stage == pre.anchor_stage,
        spec_location_ok(pre.round.0, pre.locations@[li].0@, newloc),
    ensures
        spec_round_ok(post),
        spec_round_frame(pre, post, pre.locations@[li].0@),
        post.spec_has_loc(pre.locations@[li].0@),
        post.spec_loc(pre.locations@[li].0@) == newloc,
{
    let a = pre.locations@[li].0@;
    assert(forall|i: int|
        0 <= i < post.locations@.len() ==> post.locations@[i].0 == pre.locations@[i].0);
    assert forall|i: int, j: int|
        0 <= i < j < post.locations@.len() implies post.locations@[i].0@
        != post.locations@[j].0@ by {
        assert(pre.locations@[i].0@ != pre.locations@[j].0@);
    }
    assert forall|i: int|
        0 <= i < post.locations@.len() implies spec_location_ok(
        post.round.0,
        post.locations@[i].0@,
        #[trigger] post.locations@[i].1,
    ) by {
        if i != li {
            assert(post.locations@[i] == pre.locations@[i]);
            assert(spec_location_ok(pre.round.0, pre.locations@[i].0@, pre.locations@[i].1));
        }
    }
    assert(post.locations@[li].0@ == a);
    assert forall|a2: Seq<u8>|
        post.spec_has_loc(a2) == pre.spec_has_loc(a2) by {
        if post.spec_has_loc(a2) {
            let k = choose|k: int|
                0 <= k < post.locations@.len() && post.locations@[k].0@ == a2;
            assert(pre.locations@[k].0@ == a2);
        }
        if pre.spec_has_loc(a2) {
            let k = choose|k: int|
                0 <= k < pre.locations@.len() && pre.locations@[k].0@ == a2;
            assert(post.locations@[k].0@ == a2);
        }
    }
    assert forall|a2: Seq<u8>|
        a2 != a && pre.spec_has_loc(a2) implies post.spec_loc(a2) == pre.spec_loc(a2) by {
        let k1 = choose|k: int| 0 <= k < pre.locations@.len() && pre.locations@[k].0@ == a2;
        let k2 = choose|k: int|
            0 <= k < post.locations@.len() && post.locations@[k].0@ == a2;
        if k1 != k2 {
            assert(pre.locations@[k1].0@ == a2);
            assert(pre.locations@[k2].0@ == a2);
        }
        assert(k1 == k2);
        assert(k1 != li);
    }
    let w = choose|k: int| 0 <= k < post.locations@.len() && post.locations@[k].0@ == a;
    if w != li {
        assert(pre.locations@[w].0@ == a);
        assert(pre.locations@[li].0@ == a);
    }
    assert(w == li);
}

/// Whether `round` is a freshly materialized slot for round `r`: one
/// empty location per committee member (no versions, no bad-signature
/// flag, no signature decision), the anchor role derived from the
/// externally chosen leader, and thresholds from the committee size
/// (zero tolerated faults for the exempt genesis committee).
pub open spec fn spec_fresh_round(
    round: DagRound,
    r: u32,
    committee: Seq<PeerId>,
    leader: Option<PeerId>,
) -> bool {
    round.round.0 == r && round.locations@.len() == committee.len() && (forall|i: int|
        0 <= i < committee.len() ==> (#[trigger] round.locations@[i].0)@ == committee[i]@)
        && (forall|i: int|
        0 <= i < round.locations@.len() ==> (#[trigger] round.locations@[i].1).versions@.len()
            == 0 && round.locations@[i].1.bad_sig_in_broadcast == false
            && round.locations@[i].1.signed is None) && round.anchor_stage == (match leader {
        Some(l) => crate::anchor_stage::spec_anchor_stage_of(r, l),
        None => None,
    }) && round.node_count.spec_faults() == (if r == GENESIS_ROUND {
        0int
    } else {
        (committee.len() - 1) as int / 3
    })
}

/// The append-only, backward-linked window of retained rounds.
pub struct Dag {
    rounds: Vec<DagRound>,
    depth: usize,
    tasks_created: u64,
}

impl Dag {
    /// Structural soundness of the whole window: at least one round, no
    /// more than the retention depth, contiguous ascending round numbers,
    /// and each round sound.
    pub closed spec fn wf(self) -> bool {
        1 <= self.rounds@.len() <= self.depth && self.depth >= 1 && (forall|i: int|
            0 <= i < self.rounds@.len() ==> #[trigger] self.rounds@[i].round.0 == self.rounds@[0].round.0
                + i) && (forall|i: int|
            0 <= i < self.rounds@.len() ==> spec_round_ok(#[trigger] self.rounds@[i]))
    }

    /// The oldest retained round.
    pub closed spec fn spec_bottom(self) -> u32 {
        self.rounds@[0].round.0
    }

    /// The newest retained round: the local round pointer.
    pub closed spec fn spec_top(self) -> u32 {
        self.rounds@[self.rounds@.len() - 1].round.0
    }

    /// The retention depth the ledger was created with.
    pub closed spec fn spec_depth(self) -> int {
        self.depth as int
    }

    /// How many resolution tasks have ever been created; re-requesting a
    /// known slot never raises it.
    pub closed spec fn spec_tasks_created(self) -> u64 {
        self.tasks_created
    }

    /// Whether `r` lies in the retained window.
    pub open spec fn spec_retained(self, r: u32) -> bool {
        self.spec_bottom() <= r <= self.spec_top()
    }

    /// The retained round numbered `r`; meaningful only when retained.
    pub closed spec fn spec_round_at(self, r: u32) -> DagRound {
        self.rounds@[r - self.spec_bottom()]
    }

    /// Whether the retained round `r` has a location for `a`.
    pub open spec fn spec_has_location(self, r: u32, a: Seq<u8>) -> bool {
        self.spec_retained(r) && self.spec_round_at(r).spec_has_loc(a)
    }

    /// The location of `a` at round `r`; meaningful only when present.
    pub open spec fn spec_location_at(self, r: u32, a: Seq<u8>) -> DagLocation {
        self.spec_round_at(r).spec_loc(a)
    }

    /// Whether a slot for digest `d` exists at (`r`, `a`).
    pub open spec fn spec_has_slot(self, r: u32, a: Seq<u8>, d: Seq<u8>) -> bool {
        self.spec_has_location(r, a) && self.spec_location_at(r, a).spec_has_version(d)
    }

    /// The slot at (`r`, `a`, `d`); meaningful only when present.
    pub open spec fn spec_slot_at(self, r: u32, a: Seq<u8>, d: Seq<u8>) -> Slot {
        self.spec_location_at(r, a).spec_version(d)
    }

    /// Creates the oldest retained round. The committee must reach the
    /// protocol's minimum bootstrap size, except for the genesis round,
    /// whose single exempt author needs no quorum.
    pub fn new_bottom(
        round: Round,
        committee: &Vec<PeerId>,
        leader: Option<PeerId>,
        depth: usize,
    ) -> (r: Dag)
        requires
            round.0 == GENESIS_ROUND || committee@.len() >= 3,
            depth >= 1,
            forall|i: int, j: int|
                0 <= i < j < committee@.len() ==> committee@[i]@ != committee@[j]@,
        ensures
            r.wf(),
            r.spec_bottom() == round.0,
            r.spec_top() == round.0,
            r.spec_tasks_created() == 0,
            r.spec_depth() == depth,
            spec_fresh_round(r.spec_round_at(round.0), round.0, committee@, leader),
    {
        let bottom = Self::make_round(round, committee, leader);
        let mut rounds: Vec<DagRound> = Vec::new();
        rounds.push(bottom);
        Dag { rounds, depth, tasks_created: 0 }
    }

    /// Materializes one round: thresholds from the committee size, the
    /// anchor role from the externally chosen leader, and one empty
    /// location per committee member.
    fn make_round(round: Round, committee: &Vec<PeerId>, leader: Option<PeerId>) -> (r: DagRound)
        requires
            round.0 == GENESIS_ROUND || committee@.len() >= 3,
            forall|i: int, j: int|
                0 <= i < j < committee@.len() ==> committee@[i]@ != committee@[j]@,
        ensures
            spec_round_ok(r),
            r.round == round,
            spec_fresh_round(r, round.0, committee@, leader),
    {
        let node_count = if round.0 == GENESIS_ROUND {
            NodeCount::genesis()
        } else {
            NodeCount::try_from(committee.len()).unwrap()
        };
        let anchor_stage = match leader {
            Some(peer) => AnchorStage::of(round, peer),
            None => None,
        };
        let mut locations: Vec<(PeerId, DagLocation)> = Vec::new();
        let mut i: usize = 0;
        while i < committee.len()
            invariant
                0 <= i <= committee@.len(),
                locations@.len() == i,
                forall|j: int, k: int|
                    0 <= j < k < committee@.len() ==> committee@[j]@ != committee@[k]@,
                forall|j: int| 0 <= j < i ==> (#[trigger] locations@[j].0)@ == committee@[j]@,
                forall|j: int| 0 <= j < i ==> (#[trigger] locations@[j].1).versions@.len() == 0,
                forall|j: int|
                    0 <= j < i ==> (#[trigger] locations@[j].1).bad_sig_in_broadcast == false,
                forall|j: int| 0 <= j < i ==> (#[trigger] locations@[j].1).signed is None,
            decreases committee@.len() - i,
        {
            let loc = DagLocation {
                versions: Vec::new(),
                bad_sig_in_broadcast: false,
                signed: None,
            };
            locations.push((committee[i], loc));
            proof {
                assert(locations@[i as int].0 == committee@[i as int]);
                assert(locations@[i as int].1.versions@.len() == 0);
                assert(locations@[i as int].1.bad_sig_in_broadcast == false);
                assert(locations@[i as int].1.signed is None);
            }
            i = i + 1;
        }
        let r = DagRound { round, node_count, anchor_stage, locations };
        proof {
            assert forall|i2: int, j2: int|
                0 <= i2 < j2 < r.locations@.len() implies r.locations@[i2].0@
                != r.locations@[j2].0@ by {
                assert(r.locations@[i2].0@ == committee@[i2]@);
                assert(r.locations@[j2].0@ == committee@[j2]@);
            }
            assert forall|i2: int|
                0 <= i2 < r.locations@.len() implies spec_location_ok(
                r.round.0,
                r.locations@[i2].0@,
                #[trigger] r.locations@[i2].1,
            ) by {
                assert(r.locations@[i2].1.versions@.len() == 0);
            }
        }
        r
    }

    /// Creates the successor round and advances the window: every round
    /// older than the retention depth is dropped as a unit. Nothing kept
    /// by the ledger reaches a round more than `depth` steps back — the
    /// memory bound of the protocol.
    pub fn new_next(&mut self, committee: &Vec<PeerId>, leader: Option<PeerId>)
        requires
            old(self).wf(),
            old(self).spec_top() < u32::MAX,
            committee@.len() >= 3,
            forall|i: int, j: int|
                0 <= i < j < committee@.len() ==> committee@[i]@ != committee@[j]@,
        ensures
            final(self).wf(),
            final(self).spec_top() == old(self).spec_top() + 1,
            final(self).spec_depth() == old(self).spec_depth(),
            final(self).spec_tasks_created() == old(self).spec_tasks_created(),
            final(self).spec_top() - final(self).spec_bottom() < final(self).spec_depth(),
            final(self).spec_bottom() >= old(self).spec_bottom(),
            spec_fresh_round(
                final(self).spec_round_at(final(self).spec_top()),
                final(self).spec_top(),
                committee@,
                leader,
            ),
            forall|r2: u32|
                final(self).spec_retained(r2) && r2 <= old(self).spec_top()
                    ==> final(self).spec_round_at(r2) == old(self).spec_round_at(r2),
    {
        let top = self.rounds[self.rounds.len() - 1].round;
        let next = Self::make_round(Round(top.0 + 1), committee, leader);
        let ghost before = self.rounds@;
        self.rounds.push(next);
        let ghost pushed = self.rounds@;
        proof {
            assert(forall|i: int| 0 <= i < before.len() ==> pushed[i] == before[i]);
            assert(pushed[before.len() as int].round.0 == old(self).spec_top() + 1);
        }
        if self.rounds.len() > self.depth {
            // drop the round that fell off the retained window
            let _ = self.rounds.remove(0);
            proof {
                assert(self.rounds@ =~= pushed.subrange(1, pushed.len() as int));
                assert(forall|i: int|
                    0 <= i < self.rounds@.len() ==> self.rounds@[i] == pushed[i + 1]);
            }
        }
        proof {
            assert forall|i: int|
                0 <= i < self.rounds@.len() implies #[trigger] self.rounds@[i].round.0
                == self.rounds@[0].round.0 + i by {
                if self.rounds@.len() == pushed.len() {
                    assert(self.rounds@[i] == pushed[i]);
                } else {
                    assert(self.rounds@[i] == pushed[i + 1]);
                }
            }
            let n = self.rounds@.len() as int;
            assert(self.rounds@[n - 1].round.0 == self.rounds@[0].round.0 + (n - 1));
            assert forall|i: int|
                0 <= i < self.rounds@.len() implies spec_round_ok(#[trigger] self.rounds@[i]) by {
                if self.rounds@.len() == pushed.len() {
                    assert(self.rounds@[i] == pushed[i]);
                    if i < before.len() {
                        assert(spec_round_ok(before[i]));
                    }
                } else {
                    assert(self.rounds@[i] == pushed[i + 1]);
                    if i + 1 < before.len() {
                        assert(spec_round_ok(before[i + 1]));
                    }
                }
            }
        }
    }

    /// Walks backward to the given round. Returns none once the walk
    /// falls off the retained window; the window is contiguous by
    /// construction, so a gap in the middle cannot arise, and scanning
    /// forward is a caller error.
    pub fn scan(&self, round: Round) -> (r: Option<&DagRound>)
        requires
            self.wf(),
            round.0 <= self.spec_top(),
        ensures
            r is Some <==> self.spec_retained(round.0),
            r is Some ==> r->0.round == round && spec_round_ok(*r->0) && *r->0
                == self.spec_round_at(round.0),
    {
        let bottom = self.rounds[0].round;
        if round.0 < bottom.0 {
            return None;
        }
        let idx = (round.0 - bottom.0) as usize;
        proof {
            assert(self.rounds@[idx as int].round.0 == self.spec_bottom() + idx);
            assert(spec_round_ok(self.rounds@[idx as int]));
        }
        Some(&self.rounds[idx])
    }

    /// The newest retained round.
    pub fn top(&self) -> (r: &DagRound)
        requires
            self.wf(),
        ensures
            r.round.0 == self.spec_top(),
            spec_round_ok(*r),
            *r == self.spec_round_at(self.spec_top()),
    {
        &self.rounds[self.rounds.len() - 1]
    }

    /// The oldest retained round's number.
    pub fn bottom_round(&self) -> (r: Round)
        requires
            self.wf(),
        ensures
            r.0 == self.spec_bottom(),
    {
        self.rounds[0].round
    }

    /// How many resolution tasks have ever been created.
    pub fn tasks_created(&self) -> (r: u64)
        ensures
            r == self.spec_tasks_created(),
    {
        self.tasks_created
    }

    /// Inserts the author's own freshly produced point without
    /// re-validating it: local production is trusted by construction.
    /// Inserting at a round that is not retained, into a slot of a
    /// foreign author, or twice for the same author and round is a caller
    /// error, not a remote fault.
    pub fn insert_exact_sign(&mut self, point: Point)
        requires
            old(self).wf(),
            old(self).spec_has_location(
                point.body.location.round.0,
                point.body.location.author@,
            ),
            old(self).spec_location_at(
                point.body.location.round.0,
                point.body.location.author@,
            ).versions@.len() == 0,
            spec_well_formed(point.body),
        ensures
            final(self).wf(),
            spec_dag_frame(
                *old(self),
                *final(self),
                point.body.location.round.0,
                point.body.location.author@,
            ),
            final(self).spec_tasks_created() == old(self).spec_tasks_created(),
            final(self).spec_has_slot(
                point.body.location.round.0,
                point.body.location.author@,
                point.digest@,
            ),
            final(self).spec_slot_at(
                point.body.location.round.0,
                point.body.location.author@,
                point.digest@,
            ) == Slot::Done(DagPoint::Trusted(ValidPoint { point })),
    {
        let ghost r = point.body.location.round.0;
        let ghost a = point.body.location.author@;
        let round = point.body.location.round;
        let bottom = self.rounds[0].round;
        let ri = (round.0 - bottom.0) as usize;
        let ghost pre = *self;
        let mut dr = self.rounds.remove(ri);
        proof {
            assert(dr == pre.spec_round_at(r));
            assert(spec_round_ok(dr));
        }
        dr.insert_own(point);
        let ghost newround = dr;
        self.rounds.insert(ri, dr);
        proof {
            assert(self.rounds@ =~= pre.rounds@.update(ri as int, newround));
            lemma_dag_update(pre, *self, ri as int, newround);
        }
    }

    /// Records a peer broadcast whose structural verification already
    /// passed: a fresh digest opens one resolution task; a digest already
    /// known changes nothing, so an equivocation is resolved against the
    /// existing entry rather than overwritten.
    pub fn add_broadcast_exact(&mut self, point: &Point) -> (created: bool)
        requires
            old(self).wf(),
            old(self).spec_has_location(
                point.body.location.round.0,
                point.body.location.author@,
            ),
        ensures
            final(self).wf(),
            created == !old(self).spec_has_slot(
                point.body.location.round.0,
                point.body.location.author@,
                point.digest@,
            ),
            !created ==> spec_dag_unchanged(*old(self), *final(self)),
            created ==> spec_dag_frame(
                *old(self),
                *final(self),
                point.body.location.round.0,
                point.body.location.author@,
            ) && final(self).spec_slot_at(
                point.body.location.round.0,
                point.body.location.author@,
                point.digest@,
            ) == Slot::Pending && final(self).spec_has_slot(
                point.body.location.round.0,
                point.body.location.author@,
                point.digest@,
            ) && spec_slot_added(
                *old(self),
                *final(self),
                point.body.location.round.0,
                point.body.location.author@,
                point.digest@,
            ) && final(self).spec_tasks_created() == spec_bump(old(self).spec_tasks_created()),
    {
        self.request_slot(point.body.location.round, &point.body.location.author, &point.digest)
    }

    /// Returns the shared slot for a referenced point during recursive
    /// validation, creating a download-and-validate task if none exists
    /// yet: all concurrent dependents share exactly one computation, and
    /// re-requesting a known slot — pending or already resolved — leaves
    /// the ledger, and the task counter, untouched.
    pub fn add_dependency_exact(&mut self, round: Round, author: &PeerId, digest: &Digest) -> (
        created: bool)
        requires
            old(self).wf(),
            old(self).spec_has_location(round.0, author@),
        ensures
            final(self).wf(),
            created == !old(self).spec_has_slot(round.0, author@, digest@),
            !created ==> spec_dag_unchanged(*old(self), *final(self)),
            created ==> spec_dag_frame(*old(self), *final(self), round.0, author@) && final(self).spec_slot_at(round.0, author@, digest@) == Slot::Pending && final(self).spec_has_slot(round.0, author@, digest@) && spec_slot_added(
                *old(self),
                *final(self),
                round.0,
                author@,
                digest@,
            ) && final(self).spec_tasks_created()
                == spec_bump(old(self).spec_tasks_created()),
    {
        self.request_slot(round, author, digest)
    }

    /// Opens a resolution task for (`round`, `author`, `digest`) unless a
    /// slot already exists.
    fn request_slot(&mut self, round: Round, author: &PeerId, digest: &Digest) -> (created:
        bool)
        requires
            old(self).wf(),
            old(self).spec_has_location(round.0, author@),
        ensures
            final(self).wf(),
            created == !old(self).spec_has_slot(round.0, author@, digest@),
            !created ==> spec_dag_unchanged(*old(self), *final(self)),
            created ==> spec_dag_frame(*old(self), *final(self), round.0, author@) && final(self).spec_slot_at(round.0, author@, digest@) == Slot::Pending && final(self).spec_has_slot(round.0, author@, digest@) && spec_slot_added(
                *old(self),
                *final(self),
                round.0,
                author@,
                digest@,
            ) && final(self).spec_tasks_created()
                == spec_bump(old(self).spec_tasks_created()),
    {
        let bottom = self.rounds[0].round;
        let ri = (round.0 - bottom.0) as usize;
        let ghost pre = *self;
        let mut dr = self.rounds.remove(ri);
        proof {
            assert(dr == pre.spec_round_at(round.0));
            assert(spec_round_ok(dr));
        }
        let created = dr.add_dependency(author, digest);
        let ghost newround = dr;
        self.rounds.insert(ri, dr);
        if created {
            if self.tasks_created < u64::MAX {
                self.tasks_created = self.tasks_created + 1;
            }
        }
        proof {
            assert(self.rounds@ =~= pre.rounds@.update(ri as int, newround));
            lemma_dag_update(pre, *self, ri as int, newround);
            if !created {
                assert forall|r2: u32| pre.spec_retained(r2) implies self.spec_round_at(r2)
                    == pre.spec_round_at(r2) by {
                    if r2 == round.0 {
                        assert(newround == pre.spec_round_at(round.0));
                    }
                }
            }
        }
        created
    }

    /// Caches the terminal verdict of one slot's resolution task. The
    /// verdict must speak of the slot it is stored under.
    pub fn resolve_exact(&mut self, round: Round, author: &PeerId, digest: &Digest, verdict:
        DagPoint)
        requires
            old(self).wf(),
            old(self).spec_has_slot(round.0, author@, digest@),
            old(self).spec_slot_at(round.0, author@, digest@) is Pending,
            verdict.spec_location()@ == (round.0, author@),
            verdict.spec_digest()@ == digest@,
            spec_dep_well_formed(verdict),
        ensures
            final(self).wf(),
            spec_dag_frame(*old(self), *final(self), round.0, author@),
            final(self).spec_tasks_created() == old(self).spec_tasks_created(),
            final(self).spec_has_slot(round.0, author@, digest@),
            final(self).spec_slot_at(round.0, author@, digest@) == Slot::Done(verdict),
            forall|d2: Seq<u8>|
                final(self).spec_location_at(round.0, author@).spec_has_version(d2) == old(self).spec_location_at(round.0, author@).spec_has_version(d2),
            forall|d2: Seq<u8>|
                d2 != digest@ && old(self).spec_location_at(round.0, author@).spec_has_version(
                    d2,
                ) ==> final(self).spec_location_at(round.0, author@).spec_version(d2) == old(self).spec_location_at(round.0, author@).spec_version(d2),
    {
        let bottom = self.rounds[0].round;
        let ri = (round.0 - bottom.0) as usize;
        let ghost pre = *self;
        let mut dr = self.rounds.remove(ri);
        proof {
            assert(dr == pre.spec_round_at(round.0));
            assert(spec_round_ok(dr));
        }
        dr.resolve(author, digest, verdict);
        let ghost newround = dr;
        self.rounds.insert(ri, dr);
        proof {
            assert(self.rounds@ =~= pre.rounds@.update(ri as int, newround));
            lemma_dag_update(pre, *self, ri as int, newround);
        }
    }

    /// Remembers that a broadcast at (`round`, `author`) carried a bad
    /// signature.
    pub fn set_bad_sig_in_broadcast_exact(&mut self, round: Round, author: &PeerId)
        requires
            old(self).wf(),
            old(self).spec_has_location(round.0, author@),
        ensures
            final(self).wf(),
            spec_dag_frame(*old(self), *final(self), round.0, author@),
            final(self).spec_tasks_created() == old(self).spec_tasks_created(),
            final(self).spec_location_at(round.0, author@).bad_sig_in_broadcast == true,
            final(self).spec_location_at(round.0, author@).versions@ == old(self).spec_location_at(round.0, author@).versions@,
    {
        let bottom = self.rounds[0].round;
        let ri = (round.0 - bottom.0) as usize;
        let ghost pre = *self;
        let mut dr = self.rounds.remove(ri);
        proof {
            assert(dr == pre.spec_round_at(round.0));
            assert(spec_round_ok(dr));
        }
        dr.set_bad_sig(author);
        let ghost newround = dr;
        self.rounds.insert(ri, dr);
        proof {
            assert(self.rounds@ =~= pre.rounds@.update(ri as int, newround));
            lemma_dag_update(pre, *self, ri as int, newround);
        }
    }

    /// Records the local node's signature decision over a location; the
    /// first decision is kept.
    pub fn mark_signed(&mut self, round: Round, author: &PeerId, at_round: u32, accepted: bool)
        requires
            old(self).wf(),
            old(self).spec_has_location(round.0, author@),
        ensures
            final(self).wf(),
            spec_dag_frame(*old(self), *final(self), round.0, author@),
            final(self).spec_tasks_created() == old(self).spec_tasks_created(),
            final(self).spec_location_at(round.0, author@).signed == (match old(self).spec_location_at(round.0, author@).signed {
                Some(prior) => Some(prior),
                None => Some((at_round, accepted)),
            }),
            final(self).spec_location_at(round.0, author@).versions@ == old(self).spec_location_at(round.0, author@).versions@,
    {
        let bottom = self.rounds[0].round;
        let ri = (round.0 - bottom.0) as usize;
        let ghost pre = *self;
        let mut dr = self.rounds.remove(ri);
        proof {
            assert(dr == pre.spec_round_at(round.0));
            assert(spec_round_ok(dr));
        }
        dr.mark_signed(author, at_round, accepted);
        let ghost newround = dr;
        self.rounds.insert(ri, dr);
        proof {
            assert(self.rounds@ =~= pre.rounds@.update(ri as int, newround));
            lemma_dag_update(pre, *self, ri as int, newround);
        }
    }
}

/// Whether `post` retains the same window as `pre` with the same
/// locations, anchor stages and thresholds per round — slot contents may
/// differ.
pub open spec fn spec_locations_same(pre: Dag, post: Dag) -> bool {
    spec_same_rounds(pre, post) && (forall|r2: u32, a2: Seq<u8>|
        post.spec_has_location(r2, a2) == pre.spec_has_location(r2, a2)) && (forall|r2: u32|
        pre.spec_retained(r2) ==> post.spec_round_at(r2).anchor_stage == pre.spec_round_at(
            r2,
        ).anchor_stage && post.spec_round_at(r2).node_count == pre.spec_round_at(r2).node_count)
}

/// Opening or resolving slots never changes which rounds and locations
/// the window holds.
pub proof fn lemma_frame_preserves_locations(pre: Dag, post: Dag, r: u32, a: Seq<u8>)
    requires
        spec_dag_unchanged(pre, post) || spec_dag_frame(pre, post, r, a),
    ensures
        spec_locations_same(pre, post),
{
    assert forall|r2: u32, a2: Seq<u8>|
        post.spec_has_location(r2, a2) == pre.spec_has_location(r2, a2) by {
        if pre.spec_retained(r2) {
            if spec_dag_unchanged(pre, post) {
                assert(post.spec_round_at(r2) == pre.spec_round_at(r2));
            } else if r2 != r {
                assert(post.spec_round_at(r2) == pre.spec_round_at(r2));
            }
        }
    }
    assert forall|r2: u32|
        pre.spec_retained(r2) implies post.spec_round_at(r2).anchor_stage == pre.spec_round_at(
        r2,
    ).anchor_stage && post.spec_round_at(r2).node_count == pre.spec_round_at(
        r2,
    ).node_count by {
        if spec_dag_unchanged(pre, post) {
            assert(post.spec_round_at(r2) == pre.spec_round_at(r2));
        } else if r2 != r {
            assert(post.spec_round_at(r2) == pre.spec_round_at(r2));
        }
    }
}

/// A sound ledger's window never ends before it starts.
pub proof fn lemma_window_shape(dag: Dag)
    requires
        dag.wf(),
    ensures
        dag.spec_bottom() <= dag.spec_top(),
{
    let n = dag.rounds@.len() as int;
    assert(dag.rounds@[n - 1].round.0 == dag.rounds@[0].round.0 + (n - 1));
}

/// Every retained round of a sound ledger is itself sound.
pub proof fn lemma_retained_round_ok(dag: Dag, r: u32)
    requires
        dag.wf(),
        dag.spec_retained(r),
    ensures
        spec_round_ok(dag.spec_round_at(r)),
        dag.spec_round_at(r).round.0 == r,
{
    let i = r - dag.spec_bottom();
    assert(spec_round_ok(dag.rounds@[i]));
    assert(dag.rounds@[i].round.0 == dag.rounds@[0].round.0 + i);
}

/// Sameness of rounds and locations is transitive.
pub proof fn lemma_locations_same_trans(a: Dag, b: Dag, c: Dag)
    requires
        spec_locations_same(a, b),
        spec_locations_same(b, c),
    ensures
        spec_locations_same(a, c),
{
    assert forall|r2: u32|
        a.spec_retained(r2) implies c.spec_round_at(r2).anchor_stage == a.spec_round_at(
        r2,
    ).anchor_stage && c.spec_round_at(r2).node_count == a.spec_round_at(r2).node_count by {
        assert(b.spec_retained(r2) == a.spec_retained(r2));
        assert(b.spec_round_at(r2).anchor_stage == a.spec_round_at(r2).anchor_stage);
    }
}

/// A sound round's location, looked up by key, is itself sound.
pub proof fn lemma_round_loc_sound(round: DagRound, a: Seq<u8>)
    requires
        spec_round_ok(round),
        round.spec_has_loc(a),
    ensures
        spec_location_ok(round.round.0, a, round.spec_loc(a)),
{
    let w = choose|i: int| 0 <= i < round.locations@.len() && round.locations@[i].0@ == a;
    assert(spec_location_ok(round.round.0, round.locations@[w].0@, round.locations@[w].1));
}

/// A sound location's slot, looked up by key, matches its key and, when
/// resolved, carries a well-formed point.
pub proof fn lemma_location_slot_sound(r: u32, a: Seq<u8>, loc: DagLocation, d: Seq<u8>)
    requires
        spec_location_ok(r, a, loc),
        loc.spec_has_version(d),
    ensures
        spec_slot_ok(r, a, d, loc.spec_version(d)),
{
    let w = choose|i: int| 0 <= i < loc.versions@.len() && loc.versions@[i].0@ == d;
    assert(spec_slot_ok(r, a, loc.versions@[w].0@, loc.versions@[w].1));
}

/// Whether the location (`r`, `a`) of `post` holds exactly the slots of
/// `pre` plus one fresh pending slot under `d`: every other digest's
/// presence and verdict is untouched.
pub open spec fn spec_slot_added(pre: Dag, post: Dag, r: u32, a: Seq<u8>, d: Seq<u8>) -> bool {
    post.spec_has_slot(r, a, d) && post.spec_slot_at(r, a, d) == Slot::Pending && (forall|
        d2: Seq<u8>,
    |
        d2 != d ==> post.spec_location_at(r, a).spec_has_version(d2) == pre.spec_location_at(
            r,
            a,
        ).spec_has_version(d2)) && (forall|d2: Seq<u8>|
        d2 != d && pre.spec_location_at(r, a).spec_has_version(d2) ==> post.spec_location_at(
            r,
            a,
        ).spec_version(d2) == pre.spec_location_at(r, a).spec_version(d2))
}

/// A counter bumped by one, saturating at its maximum.
pub open spec fn spec_bump(x: u64) -> u64 {
    if x < u64::MAX {
        (x + 1) as u64
    } else {
        x
    }
}

/// Whether the retained window of `post` has the same shape as `pre`.
pub open spec fn spec_same_rounds(pre: Dag, post: Dag) -> bool {
    post.spec_bottom() == pre.spec_bottom() && post.spec_top() == pre.spec_top()
        && post.spec_depth() == pre.spec_depth()
}

/// Whether `post` carries exactly the rounds of `pre`, untouched — the
/// memoization guarantee: a repeated request changes nothing.
pub open spec fn spec_dag_unchanged(pre: Dag, post: Dag) -> bool {
    spec_same_rounds(pre, post) && post.spec_tasks_created() == pre.spec_tasks_created()
        && (forall|r2: u32|
        pre.spec_retained(r2) ==> post.spec_round_at(r2) == pre.spec_round_at(r2))
}

/// Whether `post` differs from `pre` in at most the location (`r`, `a`),
/// and there only as `spec_round_frame` allows.
pub open spec fn spec_dag_frame(pre: Dag, post: Dag, r: u32, a: Seq<u8>) -> bool {
    spec_same_rounds(pre, post) && (forall|r2: u32|
        r2 != r && pre.spec_retained(r2) ==> post.spec_round_at(r2) == pre.spec_round_at(r2))
        && (pre.spec_retained(r) ==> spec_round_frame(
        pre.spec_round_at(r),
        post.spec_round_at(r),
        a,
    ))
}

/// Replacing one retained round with a sound round of the same number
/// keeps the ledger sound and the window's shape, and touches no other
/// round.
proof fn lemma_dag_update(pre: Dag, post: Dag, ri: int, newround: DagRound)
    requires
        pre.wf(),
        0 <= ri < pre.rounds@.len(),
        post.rounds@ == pre.rounds@.update(ri, newround),
        newround.round == pre.rounds@[ri].round,
        spec_round_ok(newround),
        post.depth == pre.depth,
    ensures
        post.wf(),
        spec_same_rounds(pre, post),
        forall|r2: u32|
            r2 != pre.rounds@[ri].round.0 && pre.spec_retained(r2) ==> post.spec_round_at(r2)
                == pre.spec_round_at(r2),
        post.spec_round_at(pre.rounds@[ri].round.0) == newround,
    {
    assert(forall|i: int|
        0 <= i < post.rounds@.len() && i != ri ==> post.rounds@[i] == pre.rounds@[i]);
    assert(post.rounds@[ri] == newround);
    assert forall|i: int|
        0 <= i < post.rounds@.len() implies #[trigger] post.rounds@[i].round.0
        == post.rounds@[0].round.0 + i by {
        assert(pre.rounds@[i].round.0 == pre.rounds@[0].round.0 + i);
    }
    assert forall|i: int|
        0 <= i < post.rounds@.len() implies spec_round_ok(#[trigger] post.rounds@[i]) by {
        if i != ri {
            assert(spec_round_ok(pre.rounds@[i]));
        }
    }
    assert(post.spec_bottom() == pre.spec_bottom());
    assert(post.rounds@.len() == pre.rounds@.len());
}

} // verus!
