//! Phase two of point validation, the dependency cross-check: every
//! resolved dependency outcome of a point is folded into a small state
//! machine, and the fold decides among `Trusted`, `Suspicious` and
//! `Invalid`. The asynchronous gathering and awaiting of outcomes is the
//! driver's concern; the decision itself is a function of the point and
//! the multiset of outcomes, stated below.

use vstd::prelude::*;

use crate::models::{spec_prev, Location};
use crate::point::{
    spec_anchor_id, spec_anchor_link_id, spec_anchor_round, spec_well_formed, DagPoint, LinkField,
    Point, ValidPoint,
};
use crate::verify::{spec_proof_ok, Verifier};

verus! {

/// The location of the point's own slot one round below: a dependency
/// found there is a version of the author's previous point.
pub open spec fn spec_prev_loc(p: Point) -> (u32, Seq<u8>) {
    (spec_prev(p.body.location.round.0), p.body.location.author@)
}

/// Whether folding `dep` into the check of `p` marks the author as an
/// equivocator: a version of the author's previous point, valid or
/// invalid, whose digest differs from the one the proof names.
pub open spec fn spec_dep_suspicious(p: Point, dep: DagPoint) -> bool {
    match dep {
        DagPoint::Trusted(v) | DagPoint::Suspicious(v) => v.point.body.location@
            == spec_prev_loc(p) && p.body.proof is Some && v.point.digest@
            != p.body.proof->Some_0.digest@,
        DagPoint::Invalid(q) => q.body.location@ == spec_prev_loc(p) && p.body.proof is Some
            && q.digest@ != p.body.proof->Some_0.digest@,
        DagPoint::NotExists(_) => false,
    }
}

/// Whether folding `dep` into the check of `p` invalidates `p`: a
/// previous-round slot occupied with no proof given, a proven vertex whose
/// proof fails, a dependency whose anchor knowledge is fresher than what
/// `p` claims, a dependency on the anchor link path that does not lead to
/// the claimed anchor, or a bad dependency that is no mere equivocation.
pub open spec fn spec_dep_invalidates(p: Point, dep: DagPoint) -> bool {
    match dep {
        DagPoint::Trusted(v) | DagPoint::Suspicious(v) => {
            let at_prev = v.point.body.location@ == spec_prev_loc(p);
            (at_prev && p.body.proof is None) || (at_prev && p.body.proof is Some
                && v.point.digest@ == p.body.proof->Some_0.digest@ && !spec_proof_ok(p, v.point))
                || spec_anchor_round(v.point.body, LinkField::Trigger) > spec_anchor_id(
                p,
                LinkField::Trigger,
            ).location.round.0 || spec_anchor_round(v.point.body, LinkField::Proof)
                > spec_anchor_id(p, LinkField::Proof).location.round.0 || (v.point.spec_id()@
                == spec_anchor_link_id(p, LinkField::Trigger)@ && spec_anchor_id(
                v.point,
                LinkField::Trigger,
            )@ != spec_anchor_id(p, LinkField::Trigger)@) || (v.point.spec_id()@
                == spec_anchor_link_id(p, LinkField::Proof)@ && spec_anchor_id(
                v.point,
                LinkField::Proof,
            )@ != spec_anchor_id(p, LinkField::Proof)@)
        },
        DagPoint::Invalid(q) => !(q.body.location@ == spec_prev_loc(p) && p.body.proof is Some
            && q.digest@ != p.body.proof->Some_0.digest@),
        DagPoint::NotExists(id) => id.location@ != spec_prev_loc(p) || (p.body.proof is Some
            && id.digest@ == p.body.proof->Some_0.digest@),
    }
}

/// Whether some fed outcome invalidates `p`.
pub open spec fn spec_any_invalidates(p: Point, deps: Seq<DagPoint>) -> bool {
    exists|i: int| 0 <= i < deps.len() && spec_dep_invalidates(p, deps[i])
}

/// Whether some fed outcome marks the author as an equivocator.
pub open spec fn spec_any_suspicious(p: Point, deps: Seq<DagPoint>) -> bool {
    exists|i: int| 0 <= i < deps.len() && spec_dep_suspicious(p, deps[i])
}

/// Whether `dep`, if a valid point, is structurally well-formed — the DAG
/// stores only verified points, so every outcome fed to the checker meets
/// this.
pub open spec fn spec_dep_well_formed(dep: DagPoint) -> bool {
    match dep {
        DagPoint::Trusted(v) | DagPoint::Suspicious(v) => spec_well_formed(v.point.body),
        _ => true,
    }
}

/// Folds the resolved dependency outcomes of one point, in any order, and
/// decides the verdict. Equivocation does not invalidate a point; an
/// invalid dependency poisons it.
pub struct DepsChecker {
    point: Point,
    is_suspicious: bool,
    is_invalid: bool,
    deps: Ghost<Seq<DagPoint>>,
}

impl DepsChecker {
    /// The point under validation.
    pub closed spec fn spec_point(self) -> Point {
        self.point
    }

    /// The outcomes folded in so far.
    pub closed spec fn spec_deps(self) -> Seq<DagPoint> {
        self.deps@
    }

    /// The checker's flags mirror the fold of the outcomes fed so far.
    pub closed spec fn wf(self) -> bool {
        spec_well_formed(self.point.body) && self.is_invalid == spec_any_invalidates(
            self.point,
            self.deps@,
        ) && self.is_suspicious == spec_any_suspicious(self.point, self.deps@)
    }

    /// Starts the check of one point that passed phase one.
    pub fn new(point: Point) -> (r: DepsChecker)
        requires
            spec_well_formed(point.body),
        ensures
            r.wf(),
            r.spec_point() == point,
            r.spec_deps().len() == 0,
    {
        DepsChecker { point, is_suspicious: false, is_invalid: false, deps: Ghost(Seq::empty()) }
    }

    /// A sound checker always holds a structurally well-formed point.
    pub proof fn lemma_wf_point(self)
        requires
            self.wf(),
        ensures
            spec_well_formed(self.spec_point().body),
    {
    }

    /// The point under validation.
    pub fn point_ref(&self) -> (r: &Point)
        ensures
            *r == self.spec_point(),
    {
        &self.point
    }

    /// Folds one resolved dependency outcome in.
    pub fn feed(&mut self, dep: &DagPoint)
        requires
            old(self).wf(),
            spec_dep_well_formed(*dep),
        ensures
            final(self).wf(),
            final(self).spec_point() == old(self).spec_point(),
            final(self).spec_deps() == old(self).spec_deps().push(*dep),
    {
        let prev_loc = Location {
            round: self.point.body.location.round.prev(),
            author: self.point.body.location.author,
        };
        match dep {
            DagPoint::Trusted(v) | DagPoint::Suspicious(v) => {
                if v.point.body.location == prev_loc {
                    match &self.point.body.proof {
                        Some(prev) => {
                            if v.point.digest == prev.digest {
                                if !Verifier::is_proof_ok(&self.point, &v.point) {
                                    self.is_invalid = true;
                                }
                            } else {
                                // equivocation
                                self.is_suspicious = true;
                            }
                        },
                        None => {
                            // the author must have provided the proof
                            self.is_invalid = true;
                        },
                    }
                }
                if v.point.anchor_round(LinkField::Trigger).0 > self.point.anchor_id(
                    LinkField::Trigger,
                ).location.round.0 || v.point.anchor_round(LinkField::Proof).0 > self.point
                    .anchor_id(LinkField::Proof).location.round.0 {
                    // did not actualize the latest known anchor chain
                    self.is_invalid = true;
                }
                let valid_point_id = v.point.id();
                if (valid_point_id == self.point.anchor_link_id(LinkField::Trigger)
                    && !(v.point.anchor_id(LinkField::Trigger) == self.point.anchor_id(
                    LinkField::Trigger,
                ))) || (valid_point_id == self.point.anchor_link_id(LinkField::Proof) && !(
                v.point.anchor_id(LinkField::Proof) == self.point.anchor_id(LinkField::Proof))) {
                    // path does not lead to the claimed destination
                    self.is_invalid = true;
                }
            },
            DagPoint::Invalid(q) => {
                if q.body.location == prev_loc {
                    match &self.point.body.proof {
                        Some(prev) => {
                            if q.digest == prev.digest {
                                self.is_invalid = true;
                            } else {
                                // equivocation
                                self.is_suspicious = true;
                            }
                        },
                        None => {
                            self.is_invalid = true;
                        },
                    }
                } else {
                    // just an invalid dependency
                    self.is_invalid = true;
                }
            },
            DagPoint::NotExists(id) => {
                if id.location == prev_loc {
                    match &self.point.body.proof {
                        Some(prev) => {
                            if id.digest == prev.digest {
                                self.is_invalid = true;
                            }
                        },
                        None => {},
                    }
                } else {
                    self.is_invalid = true;
                }
            },
        }
        proof {
            self.deps@ = self.deps@.push(*dep);
            let s = self.deps@;
            let n = s.len() as int;
            assert(s[n - 1] == *dep);
            assert(forall|i: int| 0 <= i < n - 1 ==> s[i] == old(self).spec_deps()[i]);
            assert(self.is_invalid == spec_any_invalidates(self.point, s)) by {
                if self.is_invalid {
                    if spec_any_invalidates(old(self).spec_point(), old(self).spec_deps()) {
                        let w = choose|i: int|
                            0 <= i < old(self).spec_deps().len() && spec_dep_invalidates(
                                old(self).spec_point(),
                                old(self).spec_deps()[i],
                            );
                        assert(spec_dep_invalidates(self.point, s[w]));
                    } else {
                        assert(spec_dep_invalidates(self.point, s[n - 1]));
                    }
                } else {
                    assert(forall|i: int|
                        0 <= i < n ==> !spec_dep_invalidates(self.point, s[i]));
                }
            }
            assert(self.is_suspicious == spec_any_suspicious(self.point, s)) by {
                if self.is_suspicious {
                    if spec_any_suspicious(old(self).spec_point(), old(self).spec_deps()) {
                        let w = choose|i: int|
                            0 <= i < old(self).spec_deps().len() && spec_dep_suspicious(
                                old(self).spec_point(),
                                old(self).spec_deps()[i],
                            );
                        assert(spec_dep_suspicious(self.point, s[w]));
                    } else {
                        assert(spec_dep_suspicious(self.point, s[n - 1]));
                    }
                } else {
                    assert(forall|i: int|
                        0 <= i < n ==> !spec_dep_suspicious(self.point, s[i]));
                }
            }
        }
    }

    /// Closes the fold: no invalidation gives `Trusted`, unless an
    /// equivocation was observed along the way, which gives `Suspicious`.
    pub fn finish(self) -> (r: DagPoint)
        requires
            self.wf(),
        ensures
            spec_any_invalidates(self.spec_point(), self.spec_deps()) ==> r == DagPoint::Invalid(
                self.spec_point(),
            ),
            !spec_any_invalidates(self.spec_point(), self.spec_deps()) && spec_any_suspicious(
                self.spec_point(),
                self.spec_deps(),
            ) ==> r == DagPoint::Suspicious(ValidPoint { point: self.spec_point() }),
            !spec_any_invalidates(self.spec_point(), self.spec_deps()) && !spec_any_suspicious(
                self.spec_point(),
                self.spec_deps(),
            ) ==> r == DagPoint::Trusted(ValidPoint { point: self.spec_point() }),
    {
        if self.is_invalid {
            DagPoint::Invalid(self.point)
        } else if self.is_suspicious {
            DagPoint::Suspicious(ValidPoint { point: self.point })
        } else {
            DagPoint::Trusted(ValidPoint { point: self.point })
        }
    }
}

/// The valid point behind a `Trusted` or `Suspicious` outcome.
pub open spec fn spec_dep_valid_point(dep: DagPoint) -> Option<Point> {
    match dep {
        DagPoint::Trusted(v) | DagPoint::Suspicious(v) => Some(v.point),
        _ => None,
    }
}

/// Law: at most one chain continuation per round and author. When the
/// fold sees two valid versions of the author's previous point with
/// different digests — an equivocation — the verdict is never `Trusted`:
/// either some outcome invalidates the point, or the fold is marked
/// suspicious.
pub proof fn lemma_equivocation_never_trusted(p: Point, deps: Seq<DagPoint>, i: int, j: int)
    requires
        0 <= i < deps.len(),
        0 <= j < deps.len(),
        spec_dep_valid_point(deps[i]) is Some,
        spec_dep_valid_point(deps[j]) is Some,
        spec_dep_valid_point(deps[i])->Some_0.body.location@ == spec_prev_loc(p),
        spec_dep_valid_point(deps[j])->Some_0.body.location@ == spec_prev_loc(p),
        spec_dep_valid_point(deps[i])->Some_0.digest@ != spec_dep_valid_point(
            deps[j],
        )->Some_0.digest@,
    ensures
        spec_any_invalidates(p, deps) || spec_any_suspicious(p, deps),
{
    match p.body.proof {
        None => {
            assert(spec_dep_invalidates(p, deps[i]));
        },
        Some(prev) => {
            if spec_dep_valid_point(deps[i])->Some_0.digest@ != prev.digest@ {
                assert(spec_dep_suspicious(p, deps[i]));
            } else {
                assert(spec_dep_suspicious(p, deps[j]));
            }
        },
    }
}

/// Law: anchor-link closure, one step. A valid dependency that stands
/// exactly where the point's anchor link path points, but does not itself
/// carry the anchor identity the point claims, invalidates the point —
/// the verdict is `Invalid`, never `Trusted`.
pub proof fn lemma_anchor_path_mismatch_invalidates(
    p: Point,
    deps: Seq<DagPoint>,
    i: int,
    field: LinkField,
)
    requires
        0 <= i < deps.len(),
        spec_dep_valid_point(deps[i]) is Some,
        spec_dep_valid_point(deps[i])->Some_0.spec_id()@ == spec_anchor_link_id(p, field)@,
        spec_anchor_id(spec_dep_valid_point(deps[i])->Some_0, field)@ != spec_anchor_id(
            p,
            field,
        )@,
    ensures
        spec_any_invalidates(p, deps),
{
    match field {
        LinkField::Trigger => {
            assert(spec_dep_invalidates(p, deps[i]));
        },
        LinkField::Proof => {
            assert(spec_dep_invalidates(p, deps[i]));
        },
    }
}

/// Law: anchor actualization. A valid dependency whose claimed anchor
/// round for either role is fresher than what the point itself claims
/// invalidates the point: a point must actualize the latest anchor chain
/// its dependencies know.
pub proof fn lemma_fresher_anchor_invalidates(
    p: Point,
    deps: Seq<DagPoint>,
    i: int,
    field: LinkField,
)
    requires
        0 <= i < deps.len(),
        spec_dep_valid_point(deps[i]) is Some,
        spec_anchor_round(spec_dep_valid_point(deps[i])->Some_0.body, field) > spec_anchor_id(
            p,
            field,
        ).location.round.0,
    ensures
        spec_any_invalidates(p, deps),
{
    match field {
        LinkField::Trigger => {
            assert(spec_dep_invalidates(p, deps[i]));
        },
        LinkField::Proof => {
            assert(spec_dep_invalidates(p, deps[i]));
        },
    }
}

/// Law: monotonic time. When the fold does not invalidate the point and
/// one of the outcomes is the valid proven vertex — the author's previous
/// point, named by the proof — the point's time is no earlier than that
/// vertex's time.
pub proof fn lemma_proof_time_monotonic(p: Point, deps: Seq<DagPoint>, i: int)
    requires
        !spec_any_invalidates(p, deps),
        0 <= i < deps.len(),
        spec_dep_valid_point(deps[i]) is Some,
        spec_dep_valid_point(deps[i])->Some_0.body.location@ == spec_prev_loc(p),
        p.body.proof is Some,
        spec_dep_valid_point(deps[i])->Some_0.digest@ == p.body.proof->Some_0.digest@,
    ensures
        p.body.time.0 >= spec_dep_valid_point(deps[i])->Some_0.body.time.0,
{
    assert(!spec_dep_invalidates(p, deps[i]));
    assert(spec_proof_ok(p, spec_dep_valid_point(deps[i])->Some_0));
}

} // verus!
