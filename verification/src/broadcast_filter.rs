//! The broadcast admission gate: per-round buffering of incoming points
//! before they reach the round ledger. It runs phase-one verification on
//! every broadcast, rejects out-of-order peers, and decides — from
//! partial committee agreement — when the local round pointer must
//! advance even without full local participation.

use vstd::prelude::*;

use crate::models::{spec_prev, spec_reliable_minority, NodeCount, PeerId, Round};
use crate::point::{DagPoint, Point};
use crate::schedule::{spec_has_round, spec_peers_for, spec_schedule_distinct, PeerSchedule};
use crate::verify::{spec_signers_ok, Verifier};
use crate::encode::spec_integrity_ok;

verus! {

/// The admission verdict returned to the broadcasting peer.
#[derive(Clone, Copy, PartialEq, Eq, Structural, Debug)]
pub enum BroadcastResponse {
    /// The point is structurally valid and close to the local round; this
    /// node may eventually sign it.
    Accepted,
    /// Invalid, too old, or out of order.
    Rejected,
    /// The round is not yet determined or its committee is not yet known.
    TryLater,
}

/// One item of the downstream feed toward the consensus engine.
pub enum ConsensusEvent {
    /// The local round pointer must advance to this round.
    Forward(Round),
    /// A point that passed phase-one verification.
    Verified(Point),
    /// A point that failed phase-one verification, forwarded anyway since
    /// other points may name it as a dependency.
    Invalid(DagPoint),
}

/// How many entries of the seen-author list belong to round `r`.
pub open spec fn spec_count_at(s: Seq<(u32, PeerId)>, r: u32) -> int
    decreases s.len(),
{
    if s.len() == 0 {
        0
    } else {
        spec_count_at(s.drop_last(), r) + (if s.last().0 == r {
            1int
        } else {
            0int
        })
    }
}

/// Whether the seen-author list holds `a` at round `r`.
pub open spec fn spec_seen_in(s: Seq<(u32, PeerId)>, r: u32, a: Seq<u8>) -> bool {
    exists|i: int| 0 <= i < s.len() && s[i].0 == r && s[i].1@ == a
}

/// The buffered events of round `r`, in arrival order.
pub open spec fn spec_events_at(s: Seq<(u32, PeerId, ConsensusEvent)>, r: u32) -> Seq<
    ConsensusEvent,
>
    decreases s.len(),
{
    if s.len() == 0 {
        Seq::empty()
    } else {
        spec_events_at(s.drop_last(), r) + (if s.last().0 == r {
            seq![s.last().2]
        } else {
            Seq::empty()
        })
    }
}

/// The buffered entries of rounds strictly above `r`, in arrival order.
pub open spec fn spec_events_above(s: Seq<(u32, PeerId, ConsensusEvent)>, r: u32) -> Seq<
    (u32, PeerId, ConsensusEvent),
>
    decreases s.len(),
{
    if s.len() == 0 {
        Seq::empty()
    } else {
        spec_events_above(s.drop_last(), r) + (if s.last().0 > r {
            seq![s.last()]
        } else {
            Seq::empty()
        })
    }
}

/// The buffered entries with the entries of (`r`, `a`) removed, in
/// arrival order.
pub open spec fn spec_events_except(
    s: Seq<(u32, PeerId, ConsensusEvent)>,
    r: u32,
    a: Seq<u8>,
) -> Seq<(u32, PeerId, ConsensusEvent)>
    decreases s.len(),
{
    if s.len() == 0 {
        Seq::empty()
    } else {
        spec_events_except(s.drop_last(), r, a) + (if s.last().0 == r && s.last().1@ == a {
            Seq::empty()
        } else {
            seq![s.last()]
        })
    }
}

/// The admission gate's state: the highest round each peer has broadcast,
/// which authors were seen with a verified point per buffered round, the
/// buffered events themselves, and the local round pointer.
pub struct BroadcastFilter {
    last_by_peer: Vec<(PeerId, u32)>,
    authors_seen: Vec<(u32, PeerId)>,
    events: Vec<(u32, PeerId, ConsensusEvent)>,
    current_round: u32,
}

impl BroadcastFilter {
    /// Peer entries are unique, and so are (round, author) sightings.
    pub closed spec fn wf(self) -> bool {
        (forall|i: int, j: int|
            0 <= i < j < self.last_by_peer@.len() ==> self.last_by_peer@[i].0@
                != self.last_by_peer@[j].0@) && (forall|i: int, j: int|
            0 <= i < j < self.authors_seen@.len() ==> !(self.authors_seen@[i].0
                == self.authors_seen@[j].0 && self.authors_seen@[i].1@
                == self.authors_seen@[j].1@))
    }

    /// The local round pointer.
    pub closed spec fn spec_current(self) -> u32 {
        self.current_round
    }

    /// How many distinct authors were seen with a verified point at `r`.
    pub closed spec fn spec_author_count(self, r: u32) -> int {
        spec_count_at(self.authors_seen@, r)
    }

    /// Whether `a` was already seen with a verified point at `r`.
    pub closed spec fn spec_seen(self, r: u32, a: Seq<u8>) -> bool {
        spec_seen_in(self.authors_seen@, r, a)
    }

    /// The highest round `a` has broadcast, if any.
    pub closed spec fn spec_last_of(self, a: Seq<u8>) -> Option<u32> {
        if exists|i: int|
            0 <= i < self.last_by_peer@.len() && self.last_by_peer@[i].0@ == a {
            Some(
                self.last_by_peer@[choose|i: int|
                    0 <= i < self.last_by_peer@.len() && self.last_by_peer@[i].0@ == a].1,
            )
        } else {
            None
        }
    }

    /// The buffered events of rounds ahead of the local pointer, in
    /// arrival order, each with the round and author it came from.
    pub closed spec fn spec_buffered(self) -> Seq<(u32, PeerId, ConsensusEvent)> {
        self.events@
    }

    /// A fresh gate; the round pointer starts at the bottom and advances
    /// with the other peers.
    pub fn new(starting_round: u32) -> (r: BroadcastFilter)
        ensures
            r.wf(),
            r.spec_current() == starting_round,
            forall|r2: u32| r.spec_author_count(r2) == 0,
            forall|r2: u32, a2: Seq<u8>| !r.spec_seen(r2, a2),
            forall|a2: Seq<u8>| r.spec_last_of(a2) is None,
            r.spec_buffered().len() == 0,
    {
        BroadcastFilter {
            last_by_peer: Vec::new(),
            authors_seen: Vec::new(),
            events: Vec::new(),
            current_round: starting_round,
        }
    }

    /// The local round pointer.
    pub fn current_round(&self) -> (r: u32)
        ensures
            r == self.spec_current(),
    {
        self.current_round
    }

    /// How many distinct authors were seen with a verified point at `r`.
    pub fn author_count_at(&self, r: u32) -> (c: usize)
        ensures
            c == self.spec_author_count(r),
    {
        let mut c: usize = 0;
        let mut i: usize = 0;
        while i < self.authors_seen.len()
            invariant
                0 <= i <= self.authors_seen@.len(),
                c == spec_count_at(self.authors_seen@.subrange(0, i as int), r),
                c <= i,
            decreases self.authors_seen@.len() - i,
        {
            proof {
                assert(self.authors_seen@.subrange(0, i + 1).drop_last()
                    =~= self.authors_seen@.subrange(0, i as int));
                assert(self.authors_seen@.subrange(0, i + 1).last()
                    == self.authors_seen@[i as int]);
            }
            if self.authors_seen[i].0 == r {
                c = c + 1;
            }
            i = i + 1;
        }
        proof {
            assert(self.authors_seen@.subrange(0, self.authors_seen@.len() as int)
                =~= self.authors_seen@);
        }
        c
    }
}

/// Whether `post` carries exactly the state of `pre`: pointer, buffered
/// events, sightings, counts and per-peer last rounds.
pub open spec fn spec_gate_unchanged(pre: BroadcastFilter, post: BroadcastFilter) -> bool {
    post.spec_current() == pre.spec_current() && post.spec_buffered() == pre.spec_buffered()
        && (forall|r2: u32| post.spec_author_count(r2) == pre.spec_author_count(r2)) && (forall|
        r2: u32,
        a2: Seq<u8>,
    |
        post.spec_seen(r2, a2) == pre.spec_seen(r2, a2)) && (forall|a2: Seq<u8>|
        post.spec_last_of(a2) == pre.spec_last_of(a2))
}

/// Removing one entry drops one from its round's count and nothing from
/// any other round's.
proof fn lemma_count_remove(s: Seq<(u32, PeerId)>, i: int, r: u32)
    requires
        0 <= i < s.len(),
    ensures
        spec_count_at(s.remove(i), r) == spec_count_at(s, r) - (if s[i].0 == r {
            1int
        } else {
            0int
        }),
    decreases s.len(),
{
    if i == s.len() - 1 {
        assert(s.remove(i) =~= s.drop_last());
    } else {
        assert(s.remove(i).drop_last() =~= s.drop_last().remove(i));
        assert(s.remove(i).last() == s.last());
        lemma_count_remove(s.drop_last(), i, r);
    }
}

/// Appending an entry at or below `r` leaves the entries above `r` as
/// they were.
proof fn lemma_above_push_low(
    s: Seq<(u32, PeerId, ConsensusEvent)>,
    e: (u32, PeerId, ConsensusEvent),
    r: u32,
)
    requires
        e.0 <= r,
    ensures
        spec_events_above(s.push(e), r) == spec_events_above(s, r),
{
    assert(s.push(e).drop_last() =~= s);
    assert(s.push(e).last() == e);
    assert(spec_events_above(s.push(e), r) =~= spec_events_above(s, r));
}

/// Whether `e` is the phase-one classification of `point` against the
/// schedule: the verified point itself, or the verdict that failed it.
pub open spec fn spec_phase1_event(point: Point, s: PeerSchedule, e: ConsensusEvent) -> bool {
    let ok = spec_integrity_ok(point) && crate::point::spec_well_formed(point.body)
        && spec_signers_ok(point, s);
    &&& ok ==> e == ConsensusEvent::Verified(point)
    &&& !ok && !spec_integrity_ok(point) ==> e == ConsensusEvent::Invalid(
        DagPoint::NotExists(point.spec_id()),
    )
    &&& !ok && spec_integrity_ok(point) ==> (e matches ConsensusEvent::Invalid(
        DagPoint::Invalid(p2),
    ) && crate::point::points_eq(p2, point))
}

/// Appending one entry raises its round's count by one and no other's.
proof fn lemma_count_push(s: Seq<(u32, PeerId)>, e: (u32, PeerId), r: u32)
    ensures
        spec_count_at(s.push(e), r) == spec_count_at(s, r) + (if e.0 == r {
            1int
        } else {
            0int
        }),
{
    assert(s.push(e).drop_last() =~= s);
    assert(s.push(e).last() == e);
}

impl BroadcastFilter {
    /// The highest round `author` has broadcast, if any.
    fn last_of(&self, author: &PeerId) -> (r: Option<u32>)
        requires
            self.wf(),
        ensures
            r == self.spec_last_of(author@),
    {
        let mut i: usize = 0;
        while i < self.last_by_peer.len()
            invariant
                0 <= i <= self.last_by_peer@.len(),
                self.wf(),
                forall|j: int| 0 <= j < i ==> self.last_by_peer@[j].0@ != author@,
            decreases self.last_by_peer@.len() - i,
        {
            if self.last_by_peer[i].0 == *author {
                proof {
                    let w = choose|w: int|
                        0 <= w < self.last_by_peer@.len() && self.last_by_peer@[w].0@
                            == author@;
                    assert(self.last_by_peer@[i as int].0@ == author@);
                    assert(w == i as int);
                }
                return Some(self.last_by_peer[i].1);
            }
            i = i + 1;
        }
        None
    }

    /// Records the highest round `author` has broadcast.
    fn set_last(&mut self, author: &PeerId, round: u32)
        requires
            old(self).wf(),
        ensures
            final(self).wf(),
            final(self).spec_current() == old(self).spec_current(),
            final(self).spec_buffered() == old(self).spec_buffered(),
            forall|r2: u32| final(self).spec_author_count(r2) == old(self).spec_author_count(r2),
            forall|r2: u32, a2: Seq<u8>|
                final(self).spec_seen(r2, a2) == old(self).spec_seen(r2, a2),
            final(self).spec_last_of(author@) == Some(round),
            forall|a2: Seq<u8>|
                a2 != author@ ==> final(self).spec_last_of(a2) == old(self).spec_last_of(a2),
    {
        let mut i: usize = 0;
        while i < self.last_by_peer.len()
            invariant
                0 <= i <= self.last_by_peer@.len(),
                *self == *old(self),
                old(self).wf(),
                forall|j: int| 0 <= j < i ==> self.last_by_peer@[j].0@ != author@,
            decreases self.last_by_peer@.len() - i,
        {
            if self.last_by_peer[i].0 == *author {
                let ghost pre = self.last_by_peer@;
                let entry = self.last_by_peer.remove(i);
                self.last_by_peer.insert(i, (entry.0, round));
                proof {
                    assert(self.last_by_peer@ =~= pre.update(i as int, (pre[i as int].0, round)));
                    assert(forall|j: int|
                        0 <= j < self.last_by_peer@.len() ==> self.last_by_peer@[j].0
                            == pre[j].0);
                    assert(self.last_by_peer@[i as int].0@ == author@);
                    assert forall|a2: Seq<u8>|
                        a2 != author@ implies final(self).spec_last_of(a2) == old(self).spec_last_of(a2) by {
                        if old(self).spec_last_of(a2) is Some {
                            let k = choose|k: int| 0 <= k < pre.len() && pre[k].0@ == a2;
                            assert(self.last_by_peer@[k].0@ == a2);
                            let k2 = choose|k2: int|
                                0 <= k2 < self.last_by_peer@.len()
                                    && self.last_by_peer@[k2].0@ == a2;
                            if k2 != k {
                                assert(pre[k2].0@ == a2);
                            }
                            assert(k2 == k);
                            assert(k != i as int);
                        } else {
                            if final(self).spec_last_of(a2) is Some {
                                let k = choose|k: int|
                                    0 <= k < self.last_by_peer@.len()
                                        && self.last_by_peer@[k].0@ == a2;
                                assert(pre[k].0@ == a2);
                            }
                        }
                    }
                    let w = choose|w: int|
                        0 <= w < self.last_by_peer@.len() && self.last_by_peer@[w].0@
                            == author@;
                    if w != i as int {
                        assert(pre[w].0@ == author@);
                    }
                    assert(w == i as int);
                }
                return ;
            }
            i = i + 1;
        }
        let ghost pre = self.last_by_peer@;
        self.last_by_peer.push((*author, round));
        proof {
            let n = pre.len() as int;
            assert(self.last_by_peer@[n].0@ == author@);
            assert(forall|j: int| 0 <= j < n ==> self.last_by_peer@[j] == pre[j]);
            let w = choose|w: int|
                0 <= w < self.last_by_peer@.len() && self.last_by_peer@[w].0@ == author@;
            if w < n {
                assert(pre[w].0@ == author@);
            }
            assert(w == n);
            assert forall|a2: Seq<u8>|
                a2 != author@ implies final(self).spec_last_of(a2) == old(self).spec_last_of(
                a2,
            ) by {
                if old(self).spec_last_of(a2) is Some {
                    let k = choose|k: int| 0 <= k < pre.len() && pre[k].0@ == a2;
                    assert(self.last_by_peer@[k].0@ == a2);
                    let k2 = choose|k2: int|
                        0 <= k2 < self.last_by_peer@.len() && self.last_by_peer@[k2].0@ == a2;
                    if k2 != k {
                        if k2 < n {
                            assert(pre[k2].0@ == a2);
                        }
                    }
                    assert(k2 == k);
                } else {
                    if final(self).spec_last_of(a2) is Some {
                        let k = choose|k: int|
                            0 <= k < self.last_by_peer@.len() && self.last_by_peer@[k].0@
                                == a2;
                        assert(k != n);
                        assert(pre[k].0@ == a2);
                    }
                }
            }
        }
    }

    /// Marks `author` as seen with a verified point at `round`.
    fn mark_seen(&mut self, round: u32, author: &PeerId)
        requires
            old(self).wf(),
        ensures
            final(self).wf(),
            final(self).spec_current() == old(self).spec_current(),
            final(self).spec_buffered() == old(self).spec_buffered(),
            forall|a2: Seq<u8>| final(self).spec_last_of(a2) == old(self).spec_last_of(a2),
            final(self).spec_seen(round, author@),
            forall|r2: u32, a2: Seq<u8>|
                !(r2 == round && a2 == author@) ==> final(self).spec_seen(r2, a2) == old(self).spec_seen(r2, a2),
            final(self).spec_author_count(round) == old(self).spec_author_count(round) + (
            if old(self).spec_seen(round, author@) {
                0int
            } else {
                1int
            }),
            forall|r2: u32|
                r2 != round ==> final(self).spec_author_count(r2) == old(self).spec_author_count(r2),
    {
        let mut i: usize = 0;
        while i < self.authors_seen.len()
            invariant
                0 <= i <= self.authors_seen@.len(),
                *self == *old(self),
                old(self).wf(),
                forall|j: int|
                    0 <= j < i ==> !(self.authors_seen@[j].0 == round
                        && self.authors_seen@[j].1@ == author@),
            decreases self.authors_seen@.len() - i,
        {
            if self.authors_seen[i].0 == round && self.authors_seen[i].1 == *author {
                proof {
                    assert(self.authors_seen@[i as int].0 == round
                        && self.authors_seen@[i as int].1@ == author@);
                }
                return ;
            }
            i = i + 1;
        }
        let ghost pre = self.authors_seen@;
        self.authors_seen.push((round, *author));
        proof {
            let n = pre.len() as int;
            assert(self.last_by_peer@ == old(self).last_by_peer@);
            assert forall|a2: Seq<u8>|
                final(self).spec_last_of(a2) == old(self).spec_last_of(a2) by {
                if exists|k: int|
                    0 <= k < self.last_by_peer@.len() && self.last_by_peer@[k].0@ == a2 {
                    let k = choose|k: int|
                        0 <= k < self.last_by_peer@.len() && self.last_by_peer@[k].0@ == a2;
                    assert(old(self).last_by_peer@[k].0@ == a2);
                }
            }
            assert(!old(self).spec_seen(round, author@));
            assert(self.authors_seen@[n].0 == round && self.authors_seen@[n].1@ == author@);
            assert(forall|j: int| 0 <= j < n ==> self.authors_seen@[j] == pre[j]);
            lemma_count_push(pre, (round, *author), round);
            assert forall|r2: u32|
                r2 != round implies final(self).spec_author_count(r2) == old(self).spec_author_count(r2) by {
                lemma_count_push(pre, (round, *author), r2);
            }
            assert forall|r2: u32, a2: Seq<u8>|
                !(r2 == round && a2 == author@) implies final(self).spec_seen(r2, a2) == old(self).spec_seen(r2, a2) by {
                if final(self).spec_seen(r2, a2) {
                    let k = choose|k: int|
                        0 <= k < self.authors_seen@.len() && self.authors_seen@[k].0 == r2
                            && self.authors_seen@[k].1@ == a2;
                    assert(k != n);
                    assert(pre[k].0 == r2 && pre[k].1@ == a2);
                }
                if old(self).spec_seen(r2, a2) {
                    let k = choose|k: int|
                        0 <= k < pre.len() && pre[k].0 == r2 && pre[k].1@ == a2;
                    assert(self.authors_seen@[k].0 == r2 && self.authors_seen@[k].1@ == a2);
                }
            }
        }
    }
}

impl BroadcastFilter {
    /// Forgets a lagging peer's sighting and buffered events at a round
    /// it abandoned by broadcasting a higher one.
    fn cleanup_peer_round(&mut self, round: u32, author: &PeerId)
        requires
            old(self).wf(),
        ensures
            final(self).wf(),
            final(self).spec_current() == old(self).spec_current(),
            final(self).spec_buffered() == spec_events_except(
                old(self).spec_buffered(),
                round,
                author@,
            ),
            forall|a2: Seq<u8>| final(self).spec_last_of(a2) == old(self).spec_last_of(a2),
            !final(self).spec_seen(round, author@),
            forall|r2: u32, a2: Seq<u8>|
                !(r2 == round && a2 == author@) ==> final(self).spec_seen(r2, a2) == old(self).spec_seen(r2, a2),
            final(self).spec_author_count(round) == old(self).spec_author_count(round) - (
            if old(self).spec_seen(round, author@) {
                1int
            } else {
                0int
            }),
            forall|r2: u32|
                r2 != round ==> final(self).spec_author_count(r2) == old(self).spec_author_count(r2),
    {
        let ghost pre_last = self.last_by_peer@;
        let ghost pre_events = self.events@;
        let events_len = self.events.len();
        let mut kept: Vec<(u32, PeerId, ConsensusEvent)> = Vec::new();
        let mut consumed: usize = 0;
        proof {
            assert(pre_events.len() == events_len);
            assert(pre_events.subrange(0, 0) =~= Seq::<(u32, PeerId, ConsensusEvent)>::empty());
        }
        while self.events.len() > 0
            invariant
                self.last_by_peer@ == pre_last,
                self.authors_seen@ == old(self).authors_seen@,
                self.current_round == old(self).current_round,
                0 <= consumed <= pre_events.len(),
                pre_events.len() == events_len,
                self.events@ == pre_events.subrange(consumed as int, pre_events.len() as int),
                kept@ == spec_events_except(
                    pre_events.subrange(0, consumed as int),
                    round,
                    author@,
                ),
            decreases self.events@.len(),
        {
            let e = self.events.remove(0);
            proof {
                assert(e == pre_events[consumed as int]);
                assert(self.events@ =~= pre_events.subrange(
                    consumed as int + 1,
                    pre_events.len() as int,
                ));
                assert(pre_events.subrange(0, consumed as int + 1).drop_last()
                    =~= pre_events.subrange(0, consumed as int));
                assert(pre_events.subrange(0, consumed as int + 1).last()
                    == pre_events[consumed as int]);
            }
            if !(e.0 == round && e.1 == *author) {
                kept.push(e);
            }
            consumed = consumed + 1;
        }
        proof {
            assert(pre_events.subrange(0, pre_events.len() as int) =~= pre_events);
        }
        self.events = kept;
        let mut i: usize = 0;
        let ghost pre = self.authors_seen@;
        while i < self.authors_seen.len()
            invariant
                0 <= i <= self.authors_seen@.len(),
                self.authors_seen@ == pre,
                self.last_by_peer@ == pre_last,
                pre_last == old(self).last_by_peer@,
                self.current_round == old(self).current_round,
                old(self).wf(),
                pre == old(self).authors_seen@,
                self.events@ == spec_events_except(old(self).events@, round, author@),
                forall|j: int|
                    0 <= j < i ==> !(self.authors_seen@[j].0 == round
                        && self.authors_seen@[j].1@ == author@),
            decreases self.authors_seen@.len() - i,
        {
            if self.authors_seen[i].0 == round && self.authors_seen[i].1 == *author {
                let _ = self.authors_seen.remove(i);
                proof {
                    assert(pre[i as int].0 == round && pre[i as int].1@ == author@);
                    assert(self.authors_seen@ == pre.remove(i as int));
                    lemma_count_remove(pre, i as int, round);
                    assert forall|r2: u32|
                        r2 != round implies final(self).spec_author_count(r2) == old(self).spec_author_count(r2) by {
                        lemma_count_remove(pre, i as int, r2);
                    }
                    assert(forall|j: int|
                        0 <= j < self.authors_seen@.len() ==> self.authors_seen@[j] == (
                        if j < i as int {
                            pre[j]
                        } else {
                            pre[j + 1]
                        }));
                    assert forall|i2: int, j2: int|
                        0 <= i2 < j2 < self.authors_seen@.len() implies !(
                        self.authors_seen@[i2].0 == self.authors_seen@[j2].0
                            && self.authors_seen@[i2].1@ == self.authors_seen@[j2].1@) by {
                        if j2 < i as int {
                        } else if i2 < i as int {
                            assert(self.authors_seen@[j2] == pre[j2 + 1]);
                        } else {
                            assert(self.authors_seen@[i2] == pre[i2 + 1]);
                            assert(self.authors_seen@[j2] == pre[j2 + 1]);
                        }
                    }
                    assert(!final(self).spec_seen(round, author@)) by {
                        if final(self).spec_seen(round, author@) {
                            let k = choose|k: int|
                                0 <= k < self.authors_seen@.len()
                                    && self.authors_seen@[k].0 == round
                                    && self.authors_seen@[k].1@ == author@;
                            if k < i as int {
                                assert(pre[k].0 == round && pre[k].1@ == author@);
                                assert(!(pre[k].0 == round && pre[k].1@ == author@));
                            } else {
                                assert(pre[k + 1].0 == round && pre[k + 1].1@ == author@);
                                assert(k + 1 != i as int);
                            }
                        }
                    }
                    assert forall|r2: u32, a2: Seq<u8>|
                        !(r2 == round && a2 == author@) implies final(self).spec_seen(r2, a2)
                        == old(self).spec_seen(r2, a2) by {
                        if final(self).spec_seen(r2, a2) {
                            let k = choose|k: int|
                                0 <= k < self.authors_seen@.len()
                                    && self.authors_seen@[k].0 == r2
                                    && self.authors_seen@[k].1@ == a2;
                            if k < i as int {
                                assert(pre[k].0 == r2 && pre[k].1@ == a2);
                            } else {
                                assert(pre[k + 1].0 == r2 && pre[k + 1].1@ == a2);
                            }
                        }
                        if old(self).spec_seen(r2, a2) {
                            let k = choose|k: int|
                                0 <= k < pre.len() && pre[k].0 == r2 && pre[k].1@ == a2;
                            assert(k != i as int);
                            if k < i as int {
                                assert(self.authors_seen@[k].0 == r2
                                    && self.authors_seen@[k].1@ == a2);
                            } else {
                                assert(self.authors_seen@[k - 1] == pre[k]);
                            }
                        }
                    }
                    assert(self.last_by_peer@ == old(self).last_by_peer@);
                    assert forall|a2: Seq<u8>|
                        final(self).spec_last_of(a2) == old(self).spec_last_of(a2) by {
                        if exists|k: int|
                            0 <= k < self.last_by_peer@.len() && self.last_by_peer@[k].0@
                                == a2 {
                            let k = choose|k: int|
                                0 <= k < self.last_by_peer@.len() && self.last_by_peer@[k].0@
                                    == a2;
                            assert(old(self).last_by_peer@[k].0@ == a2);
                        }
                    }
                }
                return ;
            }
            i = i + 1;
        }
        proof {
            assert(!old(self).spec_seen(round, author@));
            assert(self.last_by_peer@ == old(self).last_by_peer@);
            assert forall|a2: Seq<u8>|
                final(self).spec_last_of(a2) == old(self).spec_last_of(a2) by {
                if exists|k: int|
                    0 <= k < self.last_by_peer@.len() && self.last_by_peer@[k].0@ == a2 {
                    let k = choose|k: int|
                        0 <= k < self.last_by_peer@.len() && self.last_by_peer@[k].0@ == a2;
                    assert(old(self).last_by_peer@[k].0@ == a2);
                }
            }
        }
    }

    /// Advances the local round pointer: releases the buffered events of
    /// the two newest retained rounds, oldest round first, each preceded
    /// by a `Forward` marker, and discards everything strictly older as
    /// superseded.
    pub fn advance_round(&mut self, new_round: Round, output: &mut Vec<ConsensusEvent>)
        requires
            old(self).wf(),
        ensures
            final(self).wf(),
            final(self).spec_current() == (if new_round.0 > old(self).spec_current() {
                new_round.0
            } else {
                old(self).spec_current()
            }),
            new_round.0 <= old(self).spec_current() ==> spec_gate_unchanged(
                *old(self),
                *final(self),
            ) && final(output)@ == old(output)@,
            new_round.0 > old(self).spec_current() ==> ({
                let buffered = old(self).spec_buffered();
                let at_prev = spec_events_at(buffered, spec_prev(new_round.0));
                let at_new = spec_events_at(buffered, new_round.0);
                &&& final(output)@ == old(output)@ + (if at_prev.len() == 0 {
                    Seq::empty()
                } else {
                    seq![ConsensusEvent::Forward(Round(spec_prev(new_round.0)))] + at_prev
                }) + (if at_new.len() == 0 {
                    Seq::empty()
                } else {
                    seq![ConsensusEvent::Forward(new_round)] + at_new
                })
                &&& final(self).spec_buffered() == spec_events_above(buffered, new_round.0)
                &&& (forall|r2: u32|
                    r2 <= new_round.0 ==> final(self).spec_author_count(r2) == 0)
                &&& (forall|r2: u32|
                    r2 > new_round.0 ==> final(self).spec_author_count(r2) == old(
                        self,
                    ).spec_author_count(r2))
                &&& (forall|r2: u32, a2: Seq<u8>|
                    final(self).spec_seen(r2, a2) == (r2 > new_round.0 && old(self).spec_seen(
                        r2,
                        a2,
                    )))
                &&& (forall|a2: Seq<u8>|
                    final(self).spec_last_of(a2) == old(self).spec_last_of(a2))
            }),
    {
        if new_round.0 <= self.current_round {
            return ;
        }
        self.current_round = new_round.0;
        let prev = new_round.prev();
        let ghost pre_events = self.events@;
        let events_len = self.events.len();
        let mut prev_events: Vec<ConsensusEvent> = Vec::new();
        let mut new_events: Vec<ConsensusEvent> = Vec::new();
        let mut kept: Vec<(u32, PeerId, ConsensusEvent)> = Vec::new();
        let mut consumed_e: usize = 0;
        proof {
            assert(pre_events.len() == events_len);
            assert(pre_events.subrange(0, 0) =~= Seq::<(u32, PeerId, ConsensusEvent)>::empty());
        }
        while self.events.len() > 0
            invariant
                self.authors_seen@ == old(self).authors_seen@,
                self.last_by_peer@ == old(self).last_by_peer@,
                self.current_round == new_round.0,
                old(self).wf(),
                prev.0 == spec_prev(new_round.0),
                prev.0 < new_round.0,
                0 <= consumed_e <= pre_events.len(),
                pre_events.len() == events_len,
                self.events@ == pre_events.subrange(consumed_e as int, pre_events.len() as int),
                prev_events@ == spec_events_at(
                    pre_events.subrange(0, consumed_e as int),
                    prev.0,
                ),
                new_events@ == spec_events_at(
                    pre_events.subrange(0, consumed_e as int),
                    new_round.0,
                ),
                kept@ == spec_events_above(
                    pre_events.subrange(0, consumed_e as int),
                    new_round.0,
                ),
            decreases self.events@.len(),
        {
            let e = self.events.remove(0);
            proof {
                assert(e == pre_events[consumed_e as int]);
                assert(self.events@ =~= pre_events.subrange(
                    consumed_e as int + 1,
                    pre_events.len() as int,
                ));
                assert(pre_events.subrange(0, consumed_e as int + 1).drop_last()
                    =~= pre_events.subrange(0, consumed_e as int));
                assert(pre_events.subrange(0, consumed_e as int + 1).last()
                    == pre_events[consumed_e as int]);
            }
            if e.0 == prev.0 {
                prev_events.push(e.2);
            } else if e.0 == new_round.0 {
                new_events.push(e.2);
            } else if e.0 > new_round.0 {
                kept.push(e);
            }
            consumed_e = consumed_e + 1;
        }
        proof {
            assert(pre_events.subrange(0, pre_events.len() as int) =~= pre_events);
        }
        self.events = kept;
        let ghost flushed_prev = prev_events@;
        let ghost flushed_new = new_events@;
        let ghost out0 = output@;
        if prev_events.len() > 0 {
            output.push(ConsensusEvent::Forward(prev));
            let ghost out_base = output@;
            let flush_len = prev_events.len();
            proof {
                assert(flushed_prev.len() == flush_len);
            }
            let mut moved: usize = 0;
            while prev_events.len() > 0
                invariant
                    self.authors_seen@ == old(self).authors_seen@,
                    self.last_by_peer@ == old(self).last_by_peer@,
                    self.current_round == new_round.0,
                    self.events@ == spec_events_above(pre_events, new_round.0),
                    old(self).wf(),
                    0 <= moved <= flushed_prev.len(),
                    flushed_prev.len() == flush_len,
                    prev_events@ == flushed_prev.subrange(
                        moved as int,
                        flushed_prev.len() as int,
                    ),
                    output@ == out_base + flushed_prev.subrange(0, moved as int),
                    out_base == out0.push(ConsensusEvent::Forward(prev)),
                decreases prev_events@.len(),
            {
                let e = prev_events.remove(0);
                proof {
                    assert(e == flushed_prev[moved as int]);
                    assert(prev_events@ =~= flushed_prev.subrange(
                        moved as int + 1,
                        flushed_prev.len() as int,
                    ));
                }
                output.push(e);
                proof {
                    assert(output@ =~= out_base + flushed_prev.subrange(0, moved as int + 1));
                }
                moved = moved + 1;
            }
            proof {
                assert(flushed_prev.subrange(0, flushed_prev.len() as int) =~= flushed_prev);
                assert(output@ =~= out0 + (seq![ConsensusEvent::Forward(prev)] + flushed_prev));
            }
        }
        let ghost out1 = output@;
        proof {
            assert(out1 == out0 + (if flushed_prev.len() == 0 {
                Seq::empty()
            } else {
                seq![ConsensusEvent::Forward(prev)] + flushed_prev
            })) by {
                if flushed_prev.len() == 0 {
                    assert(out1 =~= out0 + Seq::<ConsensusEvent>::empty());
                }
            }
        }
        if new_events.len() > 0 {
            output.push(ConsensusEvent::Forward(new_round));
            let ghost out_base = output@;
            let flush_len = new_events.len();
            proof {
                assert(flushed_new.len() == flush_len);
            }
            let mut moved: usize = 0;
            while new_events.len() > 0
                invariant
                    self.authors_seen@ == old(self).authors_seen@,
                    self.last_by_peer@ == old(self).last_by_peer@,
                    self.current_round == new_round.0,
                    self.events@ == spec_events_above(pre_events, new_round.0),
                    old(self).wf(),
                    0 <= moved <= flushed_new.len(),
                    flushed_new.len() == flush_len,
                    new_events@ == flushed_new.subrange(moved as int, flushed_new.len() as int),
                    output@ == out_base + flushed_new.subrange(0, moved as int),
                    out_base == out1.push(ConsensusEvent::Forward(new_round)),
                decreases new_events@.len(),
            {
                let e = new_events.remove(0);
                proof {
                    assert(e == flushed_new[moved as int]);
                    assert(new_events@ =~= flushed_new.subrange(
                        moved as int + 1,
                        flushed_new.len() as int,
                    ));
                }
                output.push(e);
                proof {
                    assert(output@ =~= out_base + flushed_new.subrange(0, moved as int + 1));
                }
                moved = moved + 1;
            }
            proof {
                assert(flushed_new.subrange(0, flushed_new.len() as int) =~= flushed_new);
                assert(output@ =~= out1 + (seq![ConsensusEvent::Forward(new_round)]
                    + flushed_new));
            }
        }
        proof {
            assert(output@ == out1 + (if flushed_new.len() == 0 {
                Seq::empty()
            } else {
                seq![ConsensusEvent::Forward(new_round)] + flushed_new
            })) by {
                if flushed_new.len() == 0 {
                    assert(output@ =~= out1 + Seq::<ConsensusEvent>::empty());
                }
            }
        }
        let ghost pre = self.authors_seen@;
        let initial_seen = self.authors_seen.len();
        proof {
            assert(pre.len() == initial_seen);
            assert(pre.subrange(0, 0) =~= Seq::<(u32, PeerId)>::empty());
        }
        let mut kept_seen: Vec<(u32, PeerId)> = Vec::new();
        let mut consumed: usize = 0;
        while self.authors_seen.len() > 0
            invariant
                old(self).wf(),
                pre == old(self).authors_seen@,
                pre.len() == initial_seen,
                self.last_by_peer@ == old(self).last_by_peer@,
                self.current_round == new_round.0,
                self.events@ == spec_events_above(pre_events, new_round.0),
                0 <= consumed <= pre.len(),
                self.authors_seen@ == pre.subrange(consumed as int, pre.len() as int),
                forall|i: int|
                    #![trigger kept_seen@[i]]
                    0 <= i < kept_seen@.len() ==> (exists|k: int|
                        0 <= k < consumed && kept_seen@[i] == pre[k]),
                forall|i: int, j: int|
                    0 <= i < j < kept_seen@.len() ==> !(kept_seen@[i].0 == kept_seen@[j].0
                        && kept_seen@[i].1@ == kept_seen@[j].1@),
                forall|r2: u32|
                    r2 > new_round.0 ==> spec_count_at(kept_seen@, r2) == spec_count_at(
                        pre.subrange(0, consumed as int),
                        r2,
                    ),
                forall|r2: u32| r2 <= new_round.0 ==> spec_count_at(kept_seen@, r2) == 0,
                forall|r2: u32, a2: Seq<u8>|
                    spec_seen_in(kept_seen@, r2, a2) == (r2 > new_round.0 && spec_seen_in(
                        pre.subrange(0, consumed as int),
                        r2,
                        a2,
                    )),
            decreases self.authors_seen@.len(),
        {
            let e = self.authors_seen.remove(0);
            proof {
                assert(e == pre[consumed as int]);
                assert(self.authors_seen@ =~= pre.subrange(
                    consumed as int + 1,
                    pre.len() as int,
                ));
                assert(pre.subrange(0, consumed as int + 1).drop_last() =~= pre.subrange(
                    0,
                    consumed as int,
                ));
                assert(pre.subrange(0, consumed as int + 1).last() == pre[consumed as int]);
            }
            let ghost prefix0 = pre.subrange(0, consumed as int);
            let ghost prefix1 = pre.subrange(0, consumed as int + 1);
            let ghost prek = kept_seen@;
            if e.0 > new_round.0 {
                kept_seen.push(e);
                proof {
                    assert forall|i: int, j: int|
                        0 <= i < j < kept_seen@.len() implies !(kept_seen@[i].0
                        == kept_seen@[j].0 && kept_seen@[i].1@ == kept_seen@[j].1@) by {
                        if j == kept_seen@.len() - 1 {
                            let k = choose|k: int|
                                0 <= k < consumed && prek[i] == pre[k];
                            assert(kept_seen@[i] == pre[k]);
                            assert(kept_seen@[j] == pre[consumed as int]);
                            assert(!(pre[k].0 == pre[consumed as int].0 && pre[k].1@
                                == pre[consumed as int].1@));
                        } else {
                            assert(kept_seen@[i] == prek[i]);
                            assert(kept_seen@[j] == prek[j]);
                        }
                    }
                    assert forall|r2: u32|
                        r2 > new_round.0 implies spec_count_at(kept_seen@, r2)
                        == spec_count_at(prefix1, r2) by {
                        lemma_count_push(prek, e, r2);
                    }
                    assert forall|r2: u32|
                        r2 <= new_round.0 implies spec_count_at(kept_seen@, r2) == 0 by {
                        lemma_count_push(prek, e, r2);
                    }
                }
            }
            consumed = consumed + 1;
            proof {
                assert(pre.subrange(0, consumed as int) == prefix1);
                let n = prek.len() as int;
                assert forall|r2: u32, a2: Seq<u8>|
                    spec_seen_in(kept_seen@, r2, a2) == (r2 > new_round.0 && spec_seen_in(
                        pre.subrange(0, consumed as int),
                        r2,
                        a2,
                    )) by {
                    if spec_seen_in(kept_seen@, r2, a2) {
                        let k = choose|k: int|
                            0 <= k < kept_seen@.len() && kept_seen@[k].0 == r2
                                && kept_seen@[k].1@ == a2;
                        if k < n {
                            assert(kept_seen@[k] == prek[k]);
                            assert(spec_seen_in(prek, r2, a2));
                            assert(r2 > new_round.0 && spec_seen_in(prefix0, r2, a2));
                            let k0 = choose|k0: int|
                                0 <= k0 < prefix0.len() && prefix0[k0].0 == r2
                                    && prefix0[k0].1@ == a2;
                            assert(prefix1[k0].0 == r2 && prefix1[k0].1@ == a2);
                        } else {
                            assert(kept_seen@[k] == e);
                            assert(e.0 > new_round.0);
                            assert(prefix1[prefix1.len() - 1].0 == r2
                                && prefix1[prefix1.len() - 1].1@ == a2);
                        }
                    }
                    if r2 > new_round.0 && spec_seen_in(prefix1, r2, a2) {
                        let k = choose|k: int|
                            0 <= k < prefix1.len() && prefix1[k].0 == r2 && prefix1[k].1@
                                == a2;
                        if k < prefix1.len() - 1 {
                            assert(prefix0[k].0 == r2 && prefix0[k].1@ == a2);
                            assert(spec_seen_in(prefix0, r2, a2));
                            assert(spec_seen_in(prek, r2, a2));
                            let k0 = choose|k0: int|
                                0 <= k0 < prek.len() && prek[k0].0 == r2 && prek[k0].1@ == a2;
                            assert(kept_seen@[k0] == prek[k0]);
                            assert(kept_seen@[k0].0 == r2 && kept_seen@[k0].1@ == a2);
                        } else {
                            assert(prefix1[k] == e);
                            if e.0 > new_round.0 {
                                assert(kept_seen@[n] == e);
                                assert(kept_seen@[n].0 == r2 && kept_seen@[n].1@ == a2);
                            }
                        }
                    }
                }
            }
        }
        proof {
            assert(pre.subrange(0, pre.len() as int) =~= pre);
        }
        self.authors_seen = kept_seen;
        proof {
            assert(self.last_by_peer@ == old(self).last_by_peer@);
            assert forall|a2: Seq<u8>|
                final(self).spec_last_of(a2) == old(self).spec_last_of(a2) by {
                if exists|k: int|
                    0 <= k < self.last_by_peer@.len() && self.last_by_peer@[k].0@ == a2 {
                    let k = choose|k: int|
                        0 <= k < self.last_by_peer@.len() && self.last_by_peer@[k].0@ == a2;
                    assert(old(self).last_by_peer@[k].0@ == a2);
                }
            }
        }
    }
}

impl BroadcastFilter {
    /// Buffers one event for a future round.
    fn buffer_event(&mut self, round: u32, author: PeerId, event: ConsensusEvent)
        requires
            old(self).wf(),
        ensures
            final(self).wf(),
            final(self).spec_current() == old(self).spec_current(),
            final(self).spec_buffered() == old(self).spec_buffered().push((round, author, event)),
            forall|a2: Seq<u8>| final(self).spec_last_of(a2) == old(self).spec_last_of(a2),
            forall|r2: u32, a2: Seq<u8>|
                final(self).spec_seen(r2, a2) == old(self).spec_seen(r2, a2),
            forall|r2: u32| final(self).spec_author_count(r2) == old(self).spec_author_count(r2),
    {
        self.events.push((round, author, event));
        proof {
            assert(self.last_by_peer@ == old(self).last_by_peer@);
            assert(self.authors_seen@ == old(self).authors_seen@);
            assert forall|a2: Seq<u8>|
                final(self).spec_last_of(a2) == old(self).spec_last_of(a2) by {
                if exists|k: int|
                    0 <= k < self.last_by_peer@.len() && self.last_by_peer@[k].0@ == a2 {
                    let k = choose|k: int|
                        0 <= k < self.last_by_peer@.len() && self.last_by_peer@[k].0@ == a2;
                    assert(old(self).last_by_peer@[k].0@ == a2);
                }
            }
        }
    }

    /// One incoming broadcast. Phase-one verification runs immediately
    /// and its classification is forwarded downstream regardless of the
    /// answer, so that points which are dependencies of other points stay
    /// available. A point at or below the local round is answered at
    /// once; a peer broadcasting below its own highest round is rejected
    /// outright; a point from a future round is buffered until a reliable
    /// minority of distinct authors shows the committee has moved there,
    /// which advances the local round pointer and flushes the two newest
    /// buffered rounds.
    #[verifier::rlimit(100)]
    pub fn add(
        &mut self,
        point: Point,
        peer_schedule: &PeerSchedule,
        output: &mut Vec<ConsensusEvent>,
    ) -> (resp: BroadcastResponse)
        requires
            old(self).wf(),
            spec_schedule_distinct(*peer_schedule),
        ensures
            final(self).wf(),
            ({
                let round = point.body.location.round.0;
                let author = point.body.location.author@;
                let ok = spec_integrity_ok(point) && crate::point::spec_well_formed(point.body)
                    && spec_signers_ok(point, *peer_schedule);
                let current = old(self).spec_current();
                let out_of_order = match old(self).spec_last_of(author) {
                    Some(last) => last > round,
                    None => false,
                };
                &&& round <= current ==> spec_gate_unchanged(*old(self), *final(self))
                    && final(output)@.len() == old(output)@.len() + 1
                    && final(output)@.drop_last() == old(output)@ && spec_phase1_event(
                    point,
                    *peer_schedule,
                    final(output)@.last(),
                ) && resp == (if !ok {
                    BroadcastResponse::Rejected
                } else if round >= spec_prev(current) {
                    BroadcastResponse::Accepted
                } else {
                    BroadcastResponse::Rejected
                })
                &&& round > current && out_of_order ==> resp == BroadcastResponse::Rejected
                    && spec_gate_unchanged(*old(self), *final(self)) && final(output)@ == old(
                    output,
                )@
                &&& round > current && !out_of_order ==> ({
                    let known = spec_has_round(*peer_schedule, round) && spec_peers_for(
                        *peer_schedule,
                        round,
                    ).len() >= 3;
                    let n = spec_peers_for(*peer_schedule, round).len() as int;
                    let added: int = if ok && !old(self).spec_seen(round, author) {
                        1
                    } else {
                        0
                    };
                    let cnt = old(self).spec_author_count(round) + added;
                    let cleanup: Option<u32> = match old(self).spec_last_of(author) {
                        Some(last) => if last < round && last >= current {
                            Some(last)
                        } else {
                            None
                        },
                        None => None,
                    };
                    &&& !known ==> resp == BroadcastResponse::TryLater && final(self).spec_current() == current
                    &&& known && cnt >= spec_reliable_minority(n) ==> resp
                        == BroadcastResponse::Accepted && final(self).spec_current() == round
                        && final(self).spec_buffered() == spec_events_above(
                        match cleanup {
                            Some(l) => spec_events_except(old(self).spec_buffered(), l, author),
                            None => old(self).spec_buffered(),
                        },
                        round,
                    ) && (forall|r2: u32|
                        r2 <= round ==> final(self).spec_author_count(r2) == 0) && (forall|
                        r2: u32,
                    |
                        r2 > round ==> final(self).spec_author_count(r2) == old(
                            self,
                        ).spec_author_count(r2))
                    &&& known && cnt < spec_reliable_minority(n) ==> resp
                        == BroadcastResponse::TryLater && final(self).spec_current() == current
                        && final(self).spec_author_count(round) == cnt && final(self).spec_seen(
                        round,
                        author,
                    ) == (ok || old(self).spec_seen(round, author)) && (forall|r2: u32|
                        r2 != round ==> final(self).spec_author_count(r2) == (if cleanup
                            == Some(r2) {
                            old(self).spec_author_count(r2) - (if old(self).spec_seen(
                                r2,
                                author,
                            ) {
                                1int
                            } else {
                                0int
                            })
                        } else {
                            old(self).spec_author_count(r2)
                        }))
                    &&& final(self).spec_last_of(author) == Some(round)
                    &&& (forall|a2: Seq<u8>|
                        a2 != author ==> final(self).spec_last_of(a2) == old(self).spec_last_of(
                            a2,
                        ))
                })
            }),
    {
        let round = point.body.location.round;
        let author = point.body.location.author;
        let current = self.current_round;
        let verdict = Verifier::verify(&point, peer_schedule);
        let ok = verdict.is_ok();
        let event = match verdict {
            Ok(()) => ConsensusEvent::Verified(point),
            Err(dag_point) => ConsensusEvent::Invalid(dag_point),
        };
        if round.0 <= current {
            // an old point is not buffered: it is answered and forwarded
            // for validation, as some newer point may depend on it
            let resp = if !ok {
                BroadcastResponse::Rejected
            } else if current == 0 || round.0 >= current - 1 {
                // we may eventually sign it
                BroadcastResponse::Accepted
            } else {
                // too old to sign, but forwarded nevertheless
                BroadcastResponse::Rejected
            };
            output.push(event);
            return resp;
        }
        // the point is from a future round: a peer must broadcast its
        // rounds in increasing order
        let prior = self.last_of(&author);
        match prior {
            Some(last) => {
                if last > round.0 {
                    return BroadcastResponse::Rejected;
                }
            },
            None => {},
        }
        let ghost ev = event;
        let resp = self.admit_future(round, author, ok, prior, event, peer_schedule, output);
        proof {
            let cleanup: Option<u32> = match prior {
                Some(last) => if last < round.0 && last >= current {
                    Some(last)
                } else {
                    None
                },
                None => None,
            };
            let evolved = match cleanup {
                Some(l) => spec_events_except(old(self).spec_buffered(), l, author@),
                None => old(self).spec_buffered(),
            };
            lemma_above_push_low(evolved, (round.0, author, ev), round.0);
        }
        resp
    }

    /// Buffers a point from a future round and decides whether enough of
    /// the committee has shown up there to advance the local pointer.
    fn admit_future(
        &mut self,
        round: Round,
        author: PeerId,
        ok: bool,
        prior: Option<u32>,
        event: ConsensusEvent,
        peer_schedule: &PeerSchedule,
        output: &mut Vec<ConsensusEvent>,
    ) -> (resp: BroadcastResponse)
        requires
            old(self).wf(),
            spec_schedule_distinct(*peer_schedule),
            round.0 > old(self).spec_current(),
            prior == old(self).spec_last_of(author@),
            !(match prior {
                Some(last) => last > round.0,
                None => false,
            }),
        ensures
            final(self).wf(),
            ({
                let known = spec_has_round(*peer_schedule, round.0) && spec_peers_for(
                    *peer_schedule,
                    round.0,
                ).len() >= 3;
                let n = spec_peers_for(*peer_schedule, round.0).len() as int;
                let added: int = if ok && !old(self).spec_seen(round.0, author@) {
                    1
                } else {
                    0
                };
                let cnt = old(self).spec_author_count(round.0) + added;
                let cleanup: Option<u32> = match prior {
                    Some(last) => if last < round.0 && last >= old(self).spec_current() {
                        Some(last)
                    } else {
                        None
                    },
                    None => None,
                };
                &&& !known ==> resp == BroadcastResponse::TryLater && final(self).spec_current()
                    == old(self).spec_current()
                &&& known && cnt >= spec_reliable_minority(n) ==> resp
                    == BroadcastResponse::Accepted && final(self).spec_current() == round.0
                &&& known && cnt < spec_reliable_minority(n) ==> resp
                    == BroadcastResponse::TryLater && final(self).spec_current() == old(
                    self,
                ).spec_current()
                &&& final(self).spec_last_of(author@) == Some(round.0)
                &&& (forall|a2: Seq<u8>|
                    a2 != author@ ==> final(self).spec_last_of(a2) == old(self).spec_last_of(
                        a2,
                    ))
                &&& (known && cnt < spec_reliable_minority(n)) ==> ({
                    &&& final(self).spec_author_count(round.0) == cnt
                    &&& final(self).spec_seen(round.0, author@) == (ok || old(self).spec_seen(
                        round.0,
                        author@,
                    ))
                    &&& (forall|r2: u32|
                        r2 != round.0 ==> final(self).spec_author_count(r2) == (
                        if cleanup == Some(r2) {
                            old(self).spec_author_count(r2) - (if old(self).spec_seen(
                                r2,
                                author@,
                            ) {
                                1int
                            } else {
                                0int
                            })
                        } else {
                            old(self).spec_author_count(r2)
                        }))
                })
                &&& (known && cnt >= spec_reliable_minority(n)) ==> ({
                    &&& final(self).spec_buffered() == spec_events_above(
                        match cleanup {
                            Some(l) => spec_events_except(old(self).spec_buffered(), l, author@),
                            None => old(self).spec_buffered(),
                        }.push((round.0, author, event)),
                        round.0,
                    )
                    &&& (forall|r2: u32|
                        r2 <= round.0 ==> final(self).spec_author_count(r2) == 0)
                    &&& (forall|r2: u32|
                        r2 > round.0 ==> final(self).spec_author_count(r2) == old(
                            self,
                        ).spec_author_count(r2))
                })
            }),
    {
        let current = self.current_round;
        self.set_last(&author, round.0);
        match prior {
            Some(last) => {
                if last < round.0 && last >= current {
                    // the peer abandoned a round we were still counting
                    self.cleanup_peer_round(last, &author);
                }
            },
            None => {},
        }
        // buffering needs the round's committee size for its threshold
        let node_count = match peer_schedule.peers_for(round.0) {
            Some(peers) => {
                match NodeCount::try_from(peers.len()) {
                    Some(nc) => nc,
                    None => {
                        return BroadcastResponse::TryLater;
                    },
                }
            },
            None => {
                return BroadcastResponse::TryLater;
            },
        };
        self.buffer_event(round.0, author, event);
        if ok {
            self.mark_seen(round.0, &author);
        }
        let cnt = self.author_count_at(round.0);
        let threshold = node_count.reliable_minority();
        if cnt < threshold {
            // the consensus round is not yet determined reliably
            return BroadcastResponse::TryLater;
        }
        self.advance_round(round, output);
        BroadcastResponse::Accepted
    }
}

} // verus!
