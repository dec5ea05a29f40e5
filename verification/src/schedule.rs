//! A materialized slice of the external peer schedule: the committee for
//! each round the caller has queried it for. Committee membership is a
//! deterministic function of the round number; the schedule itself is an
//! external collaborator, so this crate only consumes its answers.

use vstd::prelude::*;

use crate::models::PeerId;

verus! {

/// Committees for a set of rounds, keyed by round number.
pub struct PeerSchedule {
    pub rounds: Vec<(u32, Vec<PeerId>)>,
}

/// Whether a committee contains the given peer.
pub open spec fn committee_has(committee: Seq<PeerId>, peer: Seq<u8>) -> bool {
    exists|i: int| 0 <= i < committee.len() && committee[i]@ == peer
}

/// Whether the schedule knows the committee of `round`.
pub open spec fn spec_has_round(s: PeerSchedule, round: u32) -> bool {
    exists|i: int| 0 <= i < s.rounds@.len() && s.rounds@[i].0 == round
}

/// The committee of `round`; meaningful only when `spec_has_round`.
pub open spec fn spec_peers_for(s: PeerSchedule, round: u32) -> Seq<PeerId> {
    s.rounds@[choose|i: int| 0 <= i < s.rounds@.len() && s.rounds@[i].0 == round].1@
}

/// Whether no two schedule entries name the same round.
pub open spec fn spec_schedule_distinct(s: PeerSchedule) -> bool {
    forall|i: int, j: int|
        0 <= i < j < s.rounds@.len() ==> s.rounds@[i].0 != s.rounds@[j].0
}

impl PeerSchedule {
    /// An empty schedule that knows no committee yet.
    pub fn new() -> (r: PeerSchedule)
        ensures
            r.rounds@.len() == 0,
            spec_schedule_distinct(r),
    {
        PeerSchedule { rounds: Vec::new() }
    }

    /// Records the committee of one round; an already known round keeps
    /// its first answer, since the schedule must be stable once queried.
    pub fn set_committee(&mut self, round: u32, committee: Vec<PeerId>)
        requires
            spec_schedule_distinct(*old(self)),
        ensures
            spec_schedule_distinct(*final(self)),
            spec_has_round(*final(self), round),
            spec_has_round(*old(self), round) ==> final(self).rounds@ == old(self).rounds@,
            !spec_has_round(*old(self), round) ==> spec_peers_for(*final(self), round)
                == committee@,
            forall|r: u32|
                r != round ==> spec_has_round(*final(self), r) == spec_has_round(*old(self), r),
            forall|r: u32|
                r != round && spec_has_round(*old(self), r) ==> spec_peers_for(*final(self), r)
                    == spec_peers_for(*old(self), r),
    {
        let mut i: usize = 0;
        while i < self.rounds.len()
            invariant
                0 <= i <= self.rounds@.len(),
                self.rounds@ == old(self).rounds@,
                spec_schedule_distinct(*old(self)),
                forall|j: int| 0 <= j < i ==> self.rounds@[j].0 != round,
            decreases self.rounds@.len() - i,
        {
            if self.rounds[i].0 == round {
                proof {
                    assert(self.rounds@[i as int].0 == round);
                }
                return ;
            }
            i = i + 1;
        }
        let ghost prior = self.rounds@;
        proof {
            assert(!spec_has_round(*old(self), round));
        }
        self.rounds.push((round, committee));
        proof {
            let n = prior.len() as int;
            assert(self.rounds@[n].0 == round);
            assert(self.rounds@[n].1@ == committee@);
            let w0 = choose|k: int| 0 <= k < self.rounds@.len() && self.rounds@[k].0 == round;
            if w0 < n {
                assert(prior[w0].0 == round);
            }
            assert(w0 == n);
            assert forall|r: u32|
                r != round implies spec_has_round(*final(self), r) == spec_has_round(
                *old(self),
                r,
            ) by {
                if spec_has_round(*final(self), r) {
                    let k = choose|k: int|
                        0 <= k < self.rounds@.len() && self.rounds@[k].0 == r;
                    assert(k != n);
                    assert(prior[k].0 == r);
                }
                if spec_has_round(*old(self), r) {
                    let k = choose|k: int| 0 <= k < prior.len() && prior[k].0 == r;
                    assert(self.rounds@[k].0 == r);
                }
            }
            assert forall|r: u32|
                r != round && spec_has_round(*old(self), r) implies spec_peers_for(
                *final(self),
                r,
            ) == spec_peers_for(*old(self), r) by {
                let w = choose|k: int| 0 <= k < prior.len() && prior[k].0 == r;
                assert(self.rounds@[w].0 == r);
                let w2 = choose|k: int|
                    0 <= k < self.rounds@.len() && self.rounds@[k].0 == r;
                if w2 < n {
                    assert(prior[w2].0 == r);
                }
                assert(w2 == w);
            }
        }
    }

    /// The committee of `round`, if the schedule knows it.
    pub fn peers_for(&self, round: u32) -> (r: Option<&Vec<PeerId>>)
        requires
            spec_schedule_distinct(*self),
        ensures
            r is Some <==> spec_has_round(*self, round),
            r is Some ==> r->0@ == spec_peers_for(*self, round),
    {
        let mut i: usize = 0;
        while i < self.rounds.len()
            invariant
                0 <= i <= self.rounds@.len(),
                spec_schedule_distinct(*self),
                forall|j: int| 0 <= j < i ==> self.rounds@[j].0 != round,
            decreases self.rounds@.len() - i,
        {
            if self.rounds[i].0 == round {
                proof {
                    let w = choose|k: int|
                        0 <= k < self.rounds@.len() && self.rounds@[k].0 == round;
                    assert(self.rounds@[i as int].0 == round);
                    assert(w == i as int);
                }
                return Some(&self.rounds[i].1);
            }
            i = i + 1;
        }
        None
    }
}

/// Whether a committee contains the given peer, by linear scan.
pub fn committee_contains(committee: &Vec<PeerId>, peer: &PeerId) -> (r: bool)
    ensures
        r == committee_has(committee@, peer@),
{
    let mut i: usize = 0;
    while i < committee.len()
        invariant
            0 <= i <= committee@.len(),
            forall|j: int| 0 <= j < i ==> committee@[j]@ != peer@,
        decreases committee@.len() - i,
    {
        if committee[i] == *peer {
            return true;
        }
        i = i + 1;
    }
    false
}

} // verus!
