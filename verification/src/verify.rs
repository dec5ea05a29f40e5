//! Phase one of point validation: synchronous, DAG-free checks of
//! integrity (signature over content digest), structural well-formedness
//! and committee membership of every signer the point names. The verdict
//! is a function of the point's content and the queried committees alone.

use vstd::prelude::*;

use crate::anchor_stage::AnchorStage;
use crate::crypto::{ed25519_verify, sig_valid};
use crate::dag::{
    lemma_frame_preserves_locations, lemma_location_slot_sound, lemma_locations_same_trans,
    lemma_round_loc_sound, spec_locations_same, spec_location_ok, spec_round_ok, spec_slot_ok,
    Dag, Slot,
};
use crate::deps_check::{
    spec_any_invalidates, spec_any_suspicious, spec_dep_well_formed, DepsChecker,
};
use crate::dep_map::evidence_has_key;
use crate::encode::spec_integrity_ok;
use crate::models::{
    spec_majority, spec_majority_of_others, spec_prev, Location, NodeCount, PeerId, PointId,
    GENESIS_ROUND,
};
use crate::point::{
    lemma_anchor_id_round_le, spec_anchor_id, spec_well_formed, DagPoint, Link, LinkField, Point,
    ValidPoint,
};
use crate::schedule::{
    committee_contains, committee_has, spec_has_round, spec_peers_for, spec_schedule_distinct,
    PeerSchedule,
};

verus! {

/// The committee of `round` as the schedule knows it; an unknown round
/// counts as an empty committee, which fails every membership test.
pub open spec fn spec_peers_or_empty(s: PeerSchedule, round: u32) -> Seq<PeerId> {
    if spec_has_round(s, round) {
        spec_peers_for(s, round)
    } else {
        Seq::empty()
    }
}

/// Whether every signer the point names belongs to its historical
/// committee, the `includes` reach the previous round's majority, and a
/// present proof carries evidence from a majority of others of the
/// point's own round. A well-formed genesis point names no signers.
pub open spec fn spec_signers_ok(p: Point, s: PeerSchedule) -> bool {
    let r = p.body.location.round.0;
    if r == GENESIS_ROUND {
        true
    } else {
        let witness_peers = spec_peers_or_empty(s, spec_prev(spec_prev(r)));
        let includes_peers = spec_peers_or_empty(s, spec_prev(r));
        let proof_peers = spec_peers_or_empty(s, r);
        (forall|i: int|
            0 <= i < p.body.witness@.len() ==> committee_has(
                witness_peers,
                p.body.witness@[i].0@,
            )) && includes_peers.len() >= 3 && p.body.includes@.len() as int >= spec_majority(
            includes_peers.len() as int,
        ) && (forall|i: int|
            0 <= i < p.body.includes@.len() ==> committee_has(
                includes_peers,
                p.body.includes@[i].0@,
            )) && (match p.body.proof {
            None => true,
            Some(prev) => proof_peers.len() >= 3 && prev.evidence@.len() as int
                >= spec_majority_of_others(proof_peers.len() as int) && (forall|i: int|
                0 <= i < prev.evidence@.len() ==> committee_has(
                    proof_peers,
                    prev.evidence@[i].0@,
                )),
        })
    }
}

/// Whether the proven point's time is not above the proving point's, and
/// every piece of evidence is a valid signature over the proven digest.
pub open spec fn spec_proof_ok(p: Point, proven: Point) -> bool {
    p.body.time.0 >= proven.body.time.0 && (forall|i: int|
        0 <= i < p.body.proof->Some_0.evidence@.len() ==> sig_valid(
            p.body.proof->Some_0.evidence@[i].0@,
            p.body.proof->Some_0.digest@,
            p.body.proof->Some_0.evidence@[i].1@,
        ))
}

/// Whether the point's use of `ToSelf` links matches the round's anchor
/// role: outside genesis, exactly the designated leader of the matching
/// role links to itself.
pub open spec fn spec_self_links_ok(p: Point, stage: Option<AnchorStage>) -> bool {
    match stage {
        None => (!(p.body.anchor_proof is ToSelf) && !(p.body.anchor_trigger is ToSelf))
            || p.body.location.round.0 == GENESIS_ROUND,
        Some(AnchorStage::Proof { leader }) => (leader@ == p.body.location.author@) == (
        p.body.anchor_proof is ToSelf),
        Some(AnchorStage::Trigger { leader }) => (leader@ == p.body.location.author@) == (
        p.body.anchor_trigger is ToSelf),
    }
}

/// The two-phase verifier. This phase needs no DAG access.
pub struct Verifier;

impl Verifier {
    /// Blames the author and every dependent point's author: checks that
    /// the signers the point names belong to their committees and that
    /// quorums are reached.
    pub fn is_list_of_signers_ok(point: &Point, peer_schedule: &PeerSchedule) -> (r: bool)
        requires
            spec_schedule_distinct(*peer_schedule),
        ensures
            r == spec_signers_ok(*point, *peer_schedule),
    {
        let round = point.body.location.round;
        if round.0 == GENESIS_ROUND {
            return true;
        }
        let witness_round = round.prev().prev();
        let includes_round = round.prev();

        let witness_ok = match peer_schedule.peers_for(witness_round.0) {
            Some(witness_peers) => {
                let mut i: usize = 0;
                let mut ok = true;
                while i < point.body.witness.len()
                    invariant
                        0 <= i <= point.body.witness@.len(),
                        ok == (forall|j: int|
                            0 <= j < i ==> committee_has(
                                witness_peers@,
                                point.body.witness@[j].0@,
                            )),
                    decreases point.body.witness@.len() - i,
                {
                    if !committee_contains(witness_peers, &point.body.witness[i].0) {
                        ok = false;
                    }
                    i = i + 1;
                }
                ok
            },
            None => point.body.witness.len() == 0,
        };
        if !witness_ok {
            proof {
                if point.body.witness@.len() > 0 && !spec_has_round(
                    *peer_schedule,
                    spec_prev(spec_prev(round.0)),
                ) {
                    assert(!committee_has(
                        spec_peers_or_empty(*peer_schedule, spec_prev(spec_prev(round.0))),
                        point.body.witness@[0].0@,
                    ));
                }
            }
            return false;
        }

        let includes_ok = match peer_schedule.peers_for(includes_round.0) {
            Some(includes_peers) => {
                match NodeCount::try_from(includes_peers.len()) {
                    None => false,
                    Some(node_count) => {
                        if point.body.includes.len() < node_count.majority() {
                            false
                        } else {
                            let mut i: usize = 0;
                            let mut ok = true;
                            while i < point.body.includes.len()
                                invariant
                                    0 <= i <= point.body.includes@.len(),
                                    ok == (forall|j: int|
                                        0 <= j < i ==> committee_has(
                                            includes_peers@,
                                            point.body.includes@[j].0@,
                                        )),
                                decreases point.body.includes@.len() - i,
                            {
                                if !committee_contains(includes_peers, &point.body.includes[i].0) {
                                    ok = false;
                                }
                                i = i + 1;
                            }
                            ok
                        }
                    },
                }
            },
            None => false,
        };
        if !includes_ok {
            return false;
        }

        match &point.body.proof {
            None => true,
            Some(prev) => {
                match peer_schedule.peers_for(round.0) {
                    Some(proof_peers) => {
                        match NodeCount::try_from(proof_peers.len()) {
                            None => false,
                            Some(node_count) => {
                                if prev.evidence.len() < node_count.majority_of_others() {
                                    false
                                } else {
                                    let mut i: usize = 0;
                                    let mut ok = true;
                                    while i < prev.evidence.len()
                                        invariant
                                            0 <= i <= prev.evidence@.len(),
                                            ok == (forall|j: int|
                                                0 <= j < i ==> committee_has(
                                                    proof_peers@,
                                                    prev.evidence@[j].0@,
                                                )),
                                        decreases prev.evidence@.len() - i,
                                    {
                                        if !committee_contains(proof_peers, &prev.evidence[i].0) {
                                            ok = false;
                                        }
                                        i = i + 1;
                                    }
                                    ok
                                }
                            },
                        }
                    },
                    None => false,
                }
            },
        }
    }

    /// Blames the author and every dependent point's author: time must be
    /// non-decreasing per author, and every evidence signature must verify
    /// over the proven digest. Mismatched identities of proof and vertex
    /// are a local coding error, not a remote fault, and are excluded.
    pub fn is_proof_ok(point: &Point, proven: &Point) -> (r: bool)
        requires
            point.body.location.author@ == proven.body.location.author@,
            point.body.location.round.0 == proven.body.location.round.0 + 1,
            point.body.proof is Some,
            point.body.proof->Some_0.digest@ == proven.digest@,
        ensures
            r == spec_proof_ok(*point, *proven),
    {
        if point.body.time.0 < proven.body.time.0 {
            return false;
        }
        match &point.body.proof {
            Some(prev) => {
                let mut i: usize = 0;
                let mut ok = true;
                while i < prev.evidence.len()
                    invariant
                        0 <= i <= prev.evidence@.len(),
                        ok == (forall|j: int|
                            0 <= j < i ==> sig_valid(
                                prev.evidence@[j].0@,
                                prev.digest@,
                                prev.evidence@[j].1@,
                            )),
                    decreases prev.evidence@.len() - i,
                {
                    if !ed25519_verify(
                        &prev.evidence[i].0,
                        &prev.digest.0,
                        &prev.evidence[i].1,
                    ) {
                        ok = false;
                    }
                    i = i + 1;
                }
                ok
            },
            None => true,
        }
    }

    /// Whether the point's `ToSelf` links match the anchor role of its
    /// round.
    pub fn is_self_links_ok(point: &Point, stage: &Option<AnchorStage>) -> (r: bool)
        ensures
            r == spec_self_links_ok(*point, *stage),
    {
        match stage {
            None => (!matches!(point.body.anchor_proof, Link::ToSelf) && !matches!(
                point.body.anchor_trigger,
                Link::ToSelf,
            )) || point.body.location.round.0 == GENESIS_ROUND,
            Some(AnchorStage::Proof { leader }) => (*leader == point.body.location.author)
                == matches!(point.body.anchor_proof, Link::ToSelf),
            Some(AnchorStage::Trigger { leader }) => (*leader == point.body.location.author)
                == matches!(point.body.anchor_trigger, Link::ToSelf),
        }
    }

    /// The first and mandatory check of any point received, no matter
    /// where from: a pure function of the point's content and the queried
    /// committees. An unusable body that cannot even be attributed yields
    /// `NotExists`; a well-formedness or signer failure yields `Invalid`.
    pub fn verify(point: &Point, peer_schedule: &PeerSchedule) -> (r: Result<(), DagPoint>)
        requires
            spec_schedule_distinct(*peer_schedule),
        ensures
            r is Ok <==> (spec_integrity_ok(*point) && spec_well_formed(point.body)
                && spec_signers_ok(*point, *peer_schedule)),
            r is Err ==> match r->Err_0 {
                DagPoint::NotExists(id) => !spec_integrity_ok(*point) && id == point.spec_id(),
                DagPoint::Invalid(p) => spec_integrity_ok(*point) && crate::point::points_eq(
                    p,
                    *point,
                ) && !(spec_well_formed(point.body) && spec_signers_ok(*point, *peer_schedule)),
                _ => false,
            },
    {
        if !point.is_integrity_ok() {
            // cannot use the point's body
            Err(DagPoint::NotExists(point.id()))
        } else if !(point.is_well_formed() && Self::is_list_of_signers_ok(point, peer_schedule)) {
            Err(DagPoint::Invalid(point.clone()))
        } else {
            Ok(())
        }
    }
}

/// How phase two answers: a terminal verdict, or the identities of the
/// dependencies whose resolution tasks are still pending — no partial
/// verdict is returned while retries are outstanding.
pub enum Validation {
    Verdict(DagPoint, Ghost<Seq<DagPoint>>),
    Pending(Vec<PointId>),
}

/// Whether the anchor link of `p` for `field` checks out against the
/// ledger: an anchor in pruned history or at genesis is accepted as
/// already consensus-validated; otherwise the claimed anchor's round must
/// designate the claimed author as leader of the matching role, and an
/// anchor strictly in the past must occupy a real location, since it is a
/// dependency to await.
pub open spec fn spec_anchor_link_check(dag: Dag, p: Point, field: LinkField) -> bool {
    let aid = spec_anchor_id(p, field);
    let ar = aid.location.round.0;
    if ar < dag.spec_bottom() {
        true
    } else if ar == GENESIS_ROUND {
        true
    } else if ar > dag.spec_top() {
        false
    } else {
        (match dag.spec_round_at(ar).anchor_stage {
            Some(AnchorStage::Proof { leader }) => field is Proof && leader@
                == aid.location.author@,
            Some(AnchorStage::Trigger { leader }) => field is Trigger && leader@
                == aid.location.author@,
            None => false,
        }) && (ar < p.body.location.round.0 ==> dag.spec_has_location(
            ar,
            aid.location.author@,
        ))
    }
}

/// Whether every dependency the point names occupies a real location of
/// the retained window: every `includes` author at the previous round,
/// and, while the round below that is still retained, every `witness`
/// author there.
pub open spec fn spec_deps_locations_ok(dag: Dag, p: Point) -> bool {
    let r1 = spec_prev(p.body.location.round.0);
    (forall|i: int|
        0 <= i < p.body.includes@.len() ==> dag.spec_has_location(
            r1,
            p.body.includes@[i].0@,
        )) && (r1 > dag.spec_bottom() ==> (forall|i: int|
        0 <= i < p.body.witness@.len() ==> dag.spec_has_location(
            spec_prev(r1),
            p.body.witness@[i].0@,
        )))
}

/// A window with the same rounds and locations answers the anchor link
/// check the same way.
proof fn lemma_locations_same_anchor_check(pre: Dag, post: Dag, p: Point, field: LinkField)
    requires
        spec_locations_same(pre, post),
    ensures
        spec_anchor_link_check(post, p, field) == spec_anchor_link_check(pre, p, field),
{
    let aid = spec_anchor_id(p, field);
    let ar = aid.location.round.0;
    if ar >= pre.spec_bottom() && ar != GENESIS_ROUND && ar <= pre.spec_top() {
        assert(pre.spec_retained(ar));
        assert(post.spec_round_at(ar).anchor_stage == pre.spec_round_at(ar).anchor_stage);
    }
}

/// A window with the same rounds and locations answers the dependency
/// location check the same way.
proof fn lemma_locations_same_deps_locations(pre: Dag, post: Dag, p: Point)
    requires
        spec_locations_same(pre, post),
    ensures
        spec_deps_locations_ok(post, p) == spec_deps_locations_ok(pre, p),
{
}

impl Verifier {
    /// Checks one anchor link of a point against the ledger, without
    /// touching it.
    fn anchor_link_ok(point: &Point, dag: &Dag, field: LinkField) -> (r: bool)
        requires
            dag.wf(),
            spec_well_formed(point.body),
            dag.spec_retained(point.body.location.round.0),
        ensures
            r == spec_anchor_link_check(*dag, *point, field),
    {
        let aid = point.anchor_id(field);
        let bottom = dag.bottom_round();
        if aid.location.round.0 < bottom.0 {
            return true;
        }
        if aid.location.round.0 == GENESIS_ROUND {
            return true;
        }
        proof {
            lemma_anchor_id_round_le(*point, field);
        }
        let round_ref = dag.scan(aid.location.round).unwrap();
        let stage_ok = match (&round_ref.anchor_stage, field) {
            (Some(AnchorStage::Proof { leader }), LinkField::Proof) => *leader
                == aid.location.author,
            (Some(AnchorStage::Trigger { leader }), LinkField::Trigger) => *leader
                == aid.location.author,
            _ => false,
        };
        if !stage_ok {
            return false;
        }
        if aid.location.round.0 < point.body.location.round.0 {
            round_ref.get_location(&aid.location.author).is_some()
        } else {
            true
        }
    }

    /// Checks that every named dependency occupies a real location,
    /// without touching the ledger.
    fn deps_locations_ok(point: &Point, dag: &Dag) -> (r: bool)
        requires
            dag.wf(),
            dag.spec_retained(point.body.location.round.0),
            point.body.location.round.0 > dag.spec_bottom(),
        ensures
            r == spec_deps_locations_ok(*dag, *point),
    {
        let r1 = point.body.location.round.prev();
        let prev_round = dag.scan(r1).unwrap();
        let mut i: usize = 0;
        while i < point.body.includes.len()
            invariant
                0 <= i <= point.body.includes@.len(),
                dag.wf(),
                dag.spec_retained(r1.0),
                r1.0 == spec_prev(point.body.location.round.0),
                *prev_round == dag.spec_round_at(r1.0),
                spec_round_ok(*prev_round),
                forall|j: int|
                    0 <= j < i ==> dag.spec_has_location(r1.0, point.body.includes@[j].0@),
            decreases point.body.includes@.len() - i,
        {
            if prev_round.get_location(&point.body.includes[i].0).is_none() {
                return false;
            }
            i = i + 1;
        }
        let bottom = dag.bottom_round();
        if r1.0 > bottom.0 {
            let r2 = r1.prev();
            let witness_round = dag.scan(r2).unwrap();
            let mut k: usize = 0;
            while k < point.body.witness.len()
                invariant
                    0 <= k <= point.body.witness@.len(),
                    dag.wf(),
                    dag.spec_retained(r2.0),
                    r2.0 == spec_prev(r1.0),
                    r1.0 == spec_prev(point.body.location.round.0),
                    r1.0 > dag.spec_bottom(),
                    *witness_round == dag.spec_round_at(r2.0),
                    spec_round_ok(*witness_round),
                    forall|j: int|
                        0 <= j < k ==> dag.spec_has_location(r2.0, point.body.witness@[j].0@),
                decreases point.body.witness@.len() - k,
            {
                if witness_round.get_location(&point.body.witness[k].0).is_none() {
                    return false;
                }
                k = k + 1;
            }
        }
        true
    }

    /// Opens (or reuses) the resolution task of the anchor dependency of
    /// one link field and folds its outcome in, when the claimed anchor
    /// is a real dependency of the retained window.
    fn feed_anchor_dep(
        checker: &mut DepsChecker,
        dag: &mut Dag,
        pending: &mut Vec<PointId>,
        field: LinkField,
    )
        requires
            old(dag).wf(),
            old(checker).wf(),
            old(dag).spec_retained(old(checker).spec_point().body.location.round.0),
            spec_anchor_link_check(*old(dag), old(checker).spec_point(), field),
        ensures
            final(dag).wf(),
            final(checker).wf(),
            final(checker).spec_point() == old(checker).spec_point(),
            spec_locations_same(*old(dag), *final(dag)),
    {
        proof {
            old(checker).lemma_wf_point();
        }
        let aid = checker.point_ref().anchor_id(field);
        let r0 = checker.point_ref().body.location.round;
        let bottom = dag.bottom_round();
        if aid.location.round.0 < bottom.0 {
            return ;
        }
        if aid.location.round.0 == GENESIS_ROUND {
            return ;
        }
        if aid.location.round.0 < r0.0 {
            proof {
                lemma_anchor_id_round_le(checker.spec_point(), field);
            }
            let ghost mid0 = *dag;
            let created = dag.add_dependency_exact(
                aid.location.round,
                &aid.location.author,
                &aid.digest,
            );
            proof {
                lemma_frame_preserves_locations(
                    mid0,
                    *dag,
                    aid.location.round.0,
                    aid.location.author@,
                );
            }
            let round_ref = dag.scan(aid.location.round).unwrap();
            let loc = round_ref.get_location(&aid.location.author).unwrap();
            proof {
                lemma_round_loc_sound(*round_ref, aid.location.author@);
            }
            let slot = loc.get_version(&aid.digest).unwrap();
            proof {
                lemma_location_slot_sound(
                    round_ref.round.0,
                    aid.location.author@,
                    *loc,
                    aid.digest@,
                );
            }
            match slot {
                Slot::Done(dp) => {
                    checker.feed(dp);
                },
                Slot::Pending => {
                    pending.push(aid);
                },
            }
        }
    }
}

impl Verifier {
    /// Phase two of validation, to be called only after `verify`
    /// succeeded: checks the point's links against the ledger, gathers
    /// every dependency — other versions of the author's previous point,
    /// the `includes`, the `witness` and the claimed anchors — through the
    /// ledger's shared-task slots, and folds the outcomes already
    /// resolved. When every dependency is resolved the verdict is
    /// terminal; otherwise the still-pending dependency identities are
    /// returned and no partial verdict is given.
    pub fn validate(point: Point, dag: &mut Dag) -> (r: Validation)
        requires
            old(dag).wf(),
            spec_well_formed(point.body),
        ensures
            final(dag).wf(),
            spec_locations_same(*old(dag), *final(dag)),
            ({
                let r0 = point.body.location.round.0;
                &&& !(old(dag).spec_retained(r0) && spec_self_links_ok(
                    point,
                    old(dag).spec_round_at(r0).anchor_stage,
                ) && spec_anchor_link_check(*old(dag), point, LinkField::Proof)
                    && spec_anchor_link_check(*old(dag), point, LinkField::Trigger) && r0 > old(
                    dag,
                ).spec_bottom() && spec_deps_locations_ok(*old(dag), point))
                    ==> crate::dag::spec_dag_unchanged(*old(dag), *final(dag))
            }),
            ({
                let r0 = point.body.location.round.0;
                let retained = old(dag).spec_retained(r0);
                let self_ok = spec_self_links_ok(
                    point,
                    old(dag).spec_round_at(r0).anchor_stage,
                );
                let anchors_ok = spec_anchor_link_check(*old(dag), point, LinkField::Proof)
                    && spec_anchor_link_check(*old(dag), point, LinkField::Trigger);
                let at_bottom = r0 == old(dag).spec_bottom();
                let locs_ok = spec_deps_locations_ok(*old(dag), point);
                &&& !retained ==> r is Verdict && r->Verdict_0 == DagPoint::NotExists(
                    point.spec_id(),
                )
                &&& retained && !self_ok ==> r is Verdict && r->Verdict_0 == DagPoint::Invalid(
                    point,
                )
                &&& retained && self_ok && !anchors_ok ==> r is Verdict && r->Verdict_0
                    == DagPoint::Invalid(point)
                &&& retained && self_ok && anchors_ok && at_bottom ==> r is Verdict
                    && r->Verdict_0 == DagPoint::Trusted(ValidPoint { point })
                &&& retained && self_ok && anchors_ok && !at_bottom && !locs_ok ==> r is Verdict
                    && r->Verdict_0 == DagPoint::Invalid(point)
                &&& retained && self_ok && anchors_ok && !at_bottom && locs_ok ==> {
                    &&& r is Pending ==> r->Pending_0@.len() > 0
                    &&& r is Verdict ==> {
                        let v = r->Verdict_0;
                        let deps = r->Verdict_1@;
                        &&& spec_any_invalidates(point, deps) ==> v == DagPoint::Invalid(point)
                        &&& !spec_any_invalidates(point, deps) && spec_any_suspicious(
                            point,
                            deps,
                        ) ==> v == DagPoint::Suspicious(ValidPoint { point })
                        &&& !spec_any_invalidates(point, deps) && !spec_any_suspicious(
                            point,
                            deps,
                        ) ==> v == DagPoint::Trusted(ValidPoint { point })
                    }
                }
            }),
    {
        let r0 = point.body.location.round;
        let top = dag.top().round;
        let bottom = dag.bottom_round();
        if r0.0 > top.0 || r0.0 < bottom.0 {
            // the local DAG moved too far forward to validate this point
            return Validation::Verdict(
                DagPoint::NotExists(point.id()),
                Ghost(Seq::empty()),
            );
        }
        let stage = dag.scan(r0).unwrap().anchor_stage;
        if !Self::is_self_links_ok(&point, &stage) {
            return Validation::Verdict(DagPoint::Invalid(point), Ghost(Seq::empty()));
        }
        let proof_link_ok = Self::anchor_link_ok(&point, dag, LinkField::Proof);
        let trigger_link_ok = Self::anchor_link_ok(&point, dag, LinkField::Trigger);
        if !(proof_link_ok && trigger_link_ok) {
            return Validation::Verdict(DagPoint::Invalid(point), Ghost(Seq::empty()));
        }
        if r0.0 == bottom.0 {
            // the round below fell off the retained window: the point is
            // trusted by itself, pruned history is already
            // consensus-validated
            return Validation::Verdict(
                DagPoint::Trusted(ValidPoint { point }),
                Ghost(Seq::empty()),
            );
        }
        if !Self::deps_locations_ok(&point, dag) {
            return Validation::Verdict(DagPoint::Invalid(point), Ghost(Seq::empty()));
        }
        let ghost dag0 = *dag;
        let r1 = r0.prev();
        let author = point.body.location.author;
        let mut pending: Vec<PointId> = Vec::new();
        let mut checker = DepsChecker::new(point);
        {
            // every version the author already has at the round below, to
            // catch self-equivocation
            let prev_round = dag.scan(r1).unwrap();
            match prev_round.get_location(&author) {
                Some(loc) => {
                    proof {
                        lemma_round_loc_sound(*prev_round, author@);
                    }
                    let mut i: usize = 0;
                    while i < loc.versions.len()
                        invariant
                            0 <= i <= loc.versions@.len(),
                            checker.wf(),
                            checker.spec_point() == point,
                            spec_location_ok(r1.0, author@, *loc),
                        decreases loc.versions@.len() - i,
                    {
                        proof {
                            assert(spec_slot_ok(
                                r1.0,
                                author@,
                                loc.versions@[i as int].0@,
                                loc.versions@[i as int].1,
                            ));
                        }
                        match &loc.versions[i].1 {
                            Slot::Done(dp) => {
                                checker.feed(dp);
                            },
                            Slot::Pending => {
                                pending.push(
                                    PointId {
                                        location: Location { round: r1, author },
                                        digest: loc.versions[i].0,
                                    },
                                );
                            },
                        }
                        i = i + 1;
                    }
                },
                None => {},
            }
        }
        // the claimed anchors, where they are real dependencies
        Self::feed_anchor_dep(&mut checker, dag, &mut pending, LinkField::Proof);
        let ghost dag1 = *dag;
        proof {
            lemma_locations_same_anchor_check(dag0, *dag, point, LinkField::Trigger);
        }
        Self::feed_anchor_dep(&mut checker, dag, &mut pending, LinkField::Trigger);
        proof {
            lemma_locations_same_trans(dag0, dag1, *dag);
        }
        // the point's required dependencies at the round below
        let n_inc = checker.point_ref().body.includes.len();
        let mut i: usize = 0;
        while i < n_inc
            invariant
                0 <= i <= n_inc,
                dag.wf(),
                checker.wf(),
                checker.spec_point() == point,
                n_inc == point.body.includes@.len(),
                spec_locations_same(dag0, *dag),
                spec_deps_locations_ok(dag0, point),
                dag0.spec_retained(r1.0),
                r1.0 == spec_prev(point.body.location.round.0),
            decreases n_inc - i,
        {
            let entry = checker.point_ref().body.includes[i];
            proof {
                lemma_locations_same_deps_locations(dag0, *dag, point);
                assert(dag.spec_has_location(r1.0, entry.0@));
            }
            let ghost mid = *dag;
            let _ = dag.add_dependency_exact(r1, &entry.0, &entry.1);
            proof {
                lemma_frame_preserves_locations(mid, *dag, r1.0, entry.0@);
                lemma_locations_same_trans(dag0, mid, *dag);
            }
            let round_ref = dag.scan(r1).unwrap();
            let loc = round_ref.get_location(&entry.0).unwrap();
            proof {
                lemma_round_loc_sound(*round_ref, entry.0@);
            }
            let slot = loc.get_version(&entry.1).unwrap();
            proof {
                lemma_location_slot_sound(round_ref.round.0, entry.0@, *loc, entry.1@);
            }
            match slot {
                Slot::Done(dp) => {
                    checker.feed(dp);
                },
                Slot::Pending => {
                    pending.push(
                        PointId {
                            location: Location { round: r1, author: entry.0 },
                            digest: entry.1,
                        },
                    );
                },
            }
            i = i + 1;
        }
        // the point's weaker dependencies two rounds below, while that
        // round is still retained
        if r1.0 > bottom.0 {
            let r2 = r1.prev();
            let n_wit = checker.point_ref().body.witness.len();
            let mut k: usize = 0;
            while k < n_wit
                invariant
                    0 <= k <= n_wit,
                    dag.wf(),
                    checker.wf(),
                    checker.spec_point() == point,
                    n_wit == point.body.witness@.len(),
                    spec_locations_same(dag0, *dag),
                    spec_deps_locations_ok(dag0, point),
                    dag0.spec_retained(r2.0),
                    r1.0 > dag0.spec_bottom(),
                    r2.0 == spec_prev(r1.0),
                    r1.0 == spec_prev(point.body.location.round.0),
                decreases n_wit - k,
            {
                let entry = checker.point_ref().body.witness[k];
                proof {
                    lemma_locations_same_deps_locations(dag0, *dag, point);
                    assert(dag.spec_has_location(r2.0, entry.0@));
                }
                let ghost mid = *dag;
                let _ = dag.add_dependency_exact(r2, &entry.0, &entry.1);
                proof {
                    lemma_frame_preserves_locations(mid, *dag, r2.0, entry.0@);
                    lemma_locations_same_trans(dag0, mid, *dag);
                }
                let round_ref = dag.scan(r2).unwrap();
                let loc = round_ref.get_location(&entry.0).unwrap();
                proof {
                    lemma_round_loc_sound(*round_ref, entry.0@);
                }
                let slot = loc.get_version(&entry.1).unwrap();
                proof {
                    lemma_location_slot_sound(round_ref.round.0, entry.0@, *loc, entry.1@);
                }
                match slot {
                    Slot::Done(dp) => {
                        checker.feed(dp);
                    },
                    Slot::Pending => {
                        pending.push(
                            PointId {
                                location: Location { round: r2, author: entry.0 },
                                digest: entry.1,
                            },
                        );
                    },
                }
                k = k + 1;
            }
        }
        if pending.len() > 0 {
            return Validation::Pending(pending);
        }
        let ghost deps = checker.spec_deps();
        let verdict = checker.finish();
        Validation::Verdict(verdict, Ghost(deps))
    }
}

} // verus!
