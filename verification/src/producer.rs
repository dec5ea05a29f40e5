//! Builds the local node's next point: selects dependencies from the two
//! preceding rounds, computes the two anchor links, derives a monotonic
//! logical time and signs the result. Production enforces the same
//! structural invariant that verification checks.

use vstd::prelude::*;

use crate::anchor_stage::AnchorStage;
use crate::dag::{
    lemma_location_slot_sound, lemma_retained_round_ok, lemma_round_loc_sound, lemma_window_shape,
    spec_location_ok, spec_round_ok, spec_slot_ok, Dag, DagLocation, DagRound, Slot,
};
use crate::crypto::{sha256_of};
use crate::dep_map::{deps_has_key, evidence_has_key, evidence_keys_distinct};
use crate::encode::spec_body_bytes;
use crate::models::{spec_prev, Digest, Location, PeerId, Round, UnixTime};
use crate::point::{
    lemma_anchor_id_round_lt, spec_link, spec_link_well_formed, spec_well_formed, DagPoint, Link,
    LinkField, Point, PointBody, PrevPoint, Through, ValidPoint,
};

verus! {

/// Whether some version of this location resolved as `Trusted`.
pub open spec fn spec_has_trusted(loc: DagLocation) -> bool {
    exists|i: int|
        #![trigger loc.versions@[i]]
        0 <= i < loc.versions@.len() && loc.versions@[i].1 matches Slot::Done(
            DagPoint::Trusted(_),
        )
}

/// Whether this location can contribute to the local node's `includes`:
/// the local node has not refused its signature, and some version
/// resolved as `Trusted`.
pub open spec fn spec_includable(loc: DagLocation) -> bool {
    (match loc.signed {
        Some((_, accepted)) => accepted,
        None => true,
    }) && spec_has_trusted(loc)
}

/// How many locations of the round can contribute to `includes`.
pub open spec fn spec_count_includable(locs: Seq<(PeerId, DagLocation)>) -> int
    decreases locs.len(),
{
    if locs.len() == 0 {
        0
    } else {
        spec_count_includable(locs.drop_last()) + (if spec_includable(locs.last().1) {
            1int
        } else {
            0int
        })
    }
}

/// Whether every entry of `sel` is a cached `Trusted` point of its own
/// location in `round`, one location contributing at most one entry.
pub open spec fn spec_selected_trusted(round: DagRound, sel: Seq<&Point>) -> bool {
    (forall|i: int, j: int|
        0 <= i < j < sel.len() ==> sel[i].body.location.author@ != sel[j].body.location.author@)
        && (forall|i: int|
        #![trigger sel[i]]
        0 <= i < sel.len() ==> round.spec_has_loc(sel[i].body.location.author@)
            && round.spec_loc(sel[i].body.location.author@).spec_has_version(sel[i].digest@)
            && round.spec_loc(sel[i].body.location.author@).spec_version(sel[i].digest@)
            == Slot::Done(DagPoint::Trusted(ValidPoint { point: *sel[i] })))
}

/// Whether every entry of `sel` is a cached valid point of its own
/// location in `round`, one location contributing at most one entry.
pub open spec fn spec_selected_valid(round: DagRound, sel: Seq<&Point>) -> bool {
    (forall|i: int, j: int|
        0 <= i < j < sel.len() ==> sel[i].body.location.author@ != sel[j].body.location.author@)
        && (forall|i: int|
        #![trigger sel[i]]
        0 <= i < sel.len() ==> round.spec_has_loc(sel[i].body.location.author@)
            && round.spec_loc(sel[i].body.location.author@).spec_has_version(sel[i].digest@)
            && (round.spec_loc(sel[i].body.location.author@).spec_version(sel[i].digest@)
            == Slot::Done(DagPoint::Trusted(ValidPoint { point: *sel[i] }))
            || round.spec_loc(sel[i].body.location.author@).spec_version(sel[i].digest@)
            == Slot::Done(DagPoint::Suspicious(ValidPoint { point: *sel[i] }))))
}

/// The first version of this location that resolved as `Trusted`.
fn first_trusted(loc: &DagLocation) -> (r: Option<&Point>)
    ensures
        r is Some <==> (exists|i: int|
            #![trigger loc.versions@[i]]
            0 <= i < loc.versions@.len() && loc.versions@[i].1 matches Slot::Done(
                DagPoint::Trusted(_),
            )),
        r is Some ==> (exists|i: int|
            #![trigger loc.versions@[i]]
            0 <= i < loc.versions@.len() && loc.versions@[i].1 == Slot::Done(
                DagPoint::Trusted(ValidPoint { point: *r->0 }),
            )),
{
    let mut vi: usize = 0;
    while vi < loc.versions.len()
        invariant
            0 <= vi <= loc.versions@.len(),
            forall|k: int|
                #![trigger loc.versions@[k]]
                0 <= k < vi ==> !(loc.versions@[k].1 matches Slot::Done(DagPoint::Trusted(_))),
        decreases loc.versions@.len() - vi,
    {
        match &loc.versions[vi].1 {
            Slot::Done(DagPoint::Trusted(v)) => {
                proof {
                    assert(loc.versions@[vi as int].1 == Slot::Done(
                        DagPoint::Trusted(ValidPoint { point: v.point }),
                    ));
                }
                return Some(&v.point);
            },
            _ => {},
        }
        vi = vi + 1;
    }
    None
}

/// The first version of this location that resolved as valid.
fn first_valid(loc: &DagLocation) -> (r: Option<&Point>)
    ensures
        r is Some <==> (exists|i: int|
            #![trigger loc.versions@[i]]
            0 <= i < loc.versions@.len() && (loc.versions@[i].1 matches Slot::Done(
                DagPoint::Trusted(_),
            ) || loc.versions@[i].1 matches Slot::Done(DagPoint::Suspicious(_)))),
        r is Some ==> (exists|i: int|
            #![trigger loc.versions@[i]]
            0 <= i < loc.versions@.len() && (loc.versions@[i].1 == Slot::Done(
                DagPoint::Trusted(ValidPoint { point: *r->0 }),
            ) || loc.versions@[i].1 == Slot::Done(
                DagPoint::Suspicious(ValidPoint { point: *r->0 }),
            ))),
{
    let mut vi: usize = 0;
    while vi < loc.versions.len()
        invariant
            0 <= vi <= loc.versions@.len(),
            forall|k: int|
                #![trigger loc.versions@[k]]
                0 <= k < vi ==> !(loc.versions@[k].1 matches Slot::Done(DagPoint::Trusted(_))
                    || loc.versions@[k].1 matches Slot::Done(DagPoint::Suspicious(_))),
        decreases loc.versions@.len() - vi,
    {
        match &loc.versions[vi].1 {
            Slot::Done(DagPoint::Trusted(v)) => {
                proof {
                    assert(loc.versions@[vi as int].1 == Slot::Done(
                        DagPoint::Trusted(ValidPoint { point: v.point }),
                    ));
                }
                return Some(&v.point);
            },
            Slot::Done(DagPoint::Suspicious(v)) => {
                proof {
                    assert(loc.versions@[vi as int].1 == Slot::Done(
                        DagPoint::Suspicious(ValidPoint { point: v.point }),
                    ));
                }
                return Some(&v.point);
            },
            _ => {},
        }
        vi = vi + 1;
    }
    None
}

/// The larger of two mathematical integers.
pub open spec fn spec_max(a: int, b: int) -> int {
    if a >= b {
        a
    } else {
        b
    }
}

/// The time of the author's own previous point as the finished round has
/// it resolved — zero when no valid version under that digest is cached.
pub open spec fn spec_own_prev_time(finished: DagRound, local: Seq<u8>, prev_digest: Seq<u8>) -> int {
    if finished.spec_has_loc(local) && finished.spec_loc(local).spec_has_version(prev_digest) {
        match finished.spec_loc(local).spec_version(prev_digest) {
            Slot::Done(DagPoint::Trusted(v)) => v.point.body.time.0 as int,
            Slot::Done(DagPoint::Suspicious(v)) => v.point.body.time.0 as int,
            _ => 0,
        }
    } else {
        0
    }
}

/// The time of the first selected point by the given author — zero when
/// the author contributed none.
pub open spec fn spec_author_time(list: Seq<&Point>, a: Seq<u8>) -> int
    decreases list.len(),
{
    if list.len() == 0 {
        0
    } else if list[0].body.location.author@ == a {
        list[0].body.time.0 as int
    } else {
        spec_author_time(list.drop_first(), a)
    }
}

/// The time of the ledger's valid point under the given identity — zero
/// when the round fell off the window or the slot is not resolved valid.
pub open spec fn spec_anchor_dep_time(dag: Dag, to: crate::models::PointId) -> int {
    if dag.spec_has_slot(to.location.round.0, to.location.author@, to.digest@) {
        match dag.spec_slot_at(to.location.round.0, to.location.author@, to.digest@) {
            Slot::Done(DagPoint::Trusted(v)) => v.point.body.time.0 as int,
            Slot::Done(DagPoint::Suspicious(v)) => v.point.body.time.0 as int,
            _ => 0,
        }
    } else {
        0
    }
}

/// The time component the anchor-proof link contributes: the dependency
/// the link goes through, or — for an indirect link with no previous
/// point — the anchor point itself, as far as the ledger still holds it.
pub open spec fn spec_anchor_path_time(
    dag: Dag,
    anchor_proof: Link,
    prev_given: bool,
    includes: Seq<&Point>,
    witness: Seq<&Point>,
) -> int {
    match anchor_proof {
        Link::ToSelf => 0,
        Link::Direct(Through::Includes(a)) => spec_author_time(includes, a@),
        Link::Direct(Through::Witness(a)) => spec_author_time(witness, a@),
        Link::Indirect { to, .. } => if prev_given {
            0
        } else {
            spec_anchor_dep_time(dag, to)
        },
    }
}

/// Scanning past non-matching authors does not change the found time.
proof fn lemma_author_time_skip(list: Seq<&Point>, a: Seq<u8>, i: int)
    requires
        0 <= i <= list.len(),
        forall|j: int| 0 <= j < i ==> (#[trigger] list[j]).body.location.author@ != a,
    ensures
        spec_author_time(list, a) == spec_author_time(list.skip(i), a),
    decreases i,
{
    if i > 0 {
        assert(spec_author_time(list, a) == spec_author_time(list.drop_first(), a));
        lemma_author_time_skip(list.drop_first(), a, i - 1);
        assert(list.drop_first().skip(i - 1) =~= list.skip(i));
    } else {
        assert(list.skip(0) =~= list);
    }
}

/// The own-point producer.
pub struct Producer;

impl Producer {
    /// Every point of the finished round currently classified `Trusted`
    /// by this node's own view, filtered to locations over which the
    /// local node has not refused its signature; one point per author.
    #[verifier::rlimit(60)]
    fn includes(finished_round: &DagRound) -> (r: Vec<&Point>)
        requires
            spec_round_ok(*finished_round),
        ensures
            spec_selected_trusted(*finished_round, r@),
            r@.len() == spec_count_includable(finished_round.locations@),
            forall|i: int|
                #![trigger r@[i]]
                0 <= i < r@.len() ==> spec_includable(
                    finished_round.spec_loc(r@[i].body.location.author@),
                ),
            forall|li: int|
                #![trigger finished_round.locations@[li]]
                0 <= li < finished_round.locations@.len() && spec_includable(
                    finished_round.locations@[li].1,
                ) ==> (exists|i: int|
                    0 <= i < r@.len() && r@[i].body.location.author@
                        == finished_round.locations@[li].0@),
    {
        let mut r: Vec<&Point> = Vec::new();
        let mut li: usize = 0;
        while li < finished_round.locations.len()
            invariant
                0 <= li <= finished_round.locations@.len(),
                spec_round_ok(*finished_round),
                spec_selected_trusted(*finished_round, r@),
                forall|i: int|
                    #![trigger r@[i]]
                    0 <= i < r@.len() ==> spec_includable(
                        finished_round.spec_loc(r@[i].body.location.author@),
                    ),
                r@.len() == spec_count_includable(
                    finished_round.locations@.subrange(0, li as int),
                ),
                forall|i: int|
                    #![trigger r@[i]]
                    0 <= i < r@.len() ==> (exists|j: int|
                        0 <= j < li && finished_round.locations@[j].0@
                            == r@[i].body.location.author@),
                forall|j: int|
                    #![trigger finished_round.locations@[j]]
                    0 <= j < li && spec_includable(finished_round.locations@[j].1) ==> (exists|
                        i: int,
                    |
                        0 <= i < r@.len() && r@[i].body.location.author@
                            == finished_round.locations@[j].0@),
            decreases finished_round.locations@.len() - li,
        {
            proof {
                assert(finished_round.locations@.subrange(0, li + 1).drop_last()
                    =~= finished_round.locations@.subrange(0, li as int));
                assert(finished_round.locations@.subrange(0, li + 1).last()
                    == finished_round.locations@[li as int]);
                assert(spec_location_ok(
                    finished_round.round.0,
                    finished_round.locations@[li as int].0@,
                    finished_round.locations@[li as int].1,
                ));
            }
            let loc = &finished_round.locations[li].1;
            let author_ok = match loc.signed {
                Some((_, accepted)) => accepted,
                None => true,
            };
            let picked = if author_ok {
                first_trusted(loc)
            } else {
                None
            };
            match picked {
                Some(p) => {
                    proof {
                        let k = choose|k: int|
                            0 <= k < loc.versions@.len() && loc.versions@[k].1 == Slot::Done(
                                DagPoint::Trusted(ValidPoint { point: *p }),
                            );
                        assert(spec_slot_ok(
                            finished_round.round.0,
                            finished_round.locations@[li as int].0@,
                            loc.versions@[k].0@,
                            loc.versions@[k].1,
                        ));
                        assert(p.body.location.author@
                            == finished_round.locations@[li as int].0@);
                        assert(p.digest@ == loc.versions@[k].0@);
                        let w = choose|w: int|
                            0 <= w < finished_round.locations@.len()
                                && finished_round.locations@[w].0@
                                == finished_round.locations@[li as int].0@;
                        assert(finished_round.locations@[li as int].0@
                            == finished_round.locations@[li as int].0@);
                        assert(w == li as int);
                        assert(finished_round.spec_loc(p.body.location.author@)
                            == finished_round.locations@[li as int].1);
                        let w2 = choose|w2: int|
                            0 <= w2 < loc.versions@.len() && loc.versions@[w2].0@ == p.digest@;
                        if w2 != k {
                            assert(loc.versions@[w2].0@ == loc.versions@[k].0@);
                        }
                        assert(w2 == k);
                        assert(loc.spec_version(p.digest@) == loc.versions@[k].1);
                    }
                    let ghost pre = r@;
                    r.push(p);
                    proof {
                        assert(spec_includable(finished_round.locations@[li as int].1));
                        assert(r@[r@.len() - 1].body.location.author@
                            == finished_round.locations@[li as int].0@);
                        assert forall|j: int|
                            #![trigger finished_round.locations@[j]]
                            0 <= j < li + 1 && spec_includable(
                                finished_round.locations@[j].1,
                            ) implies (exists|i: int|
                            0 <= i < r@.len() && r@[i].body.location.author@
                                == finished_round.locations@[j].0@) by {
                            if j < li {
                                let i0 = choose|i0: int|
                                    0 <= i0 < pre.len() && pre[i0].body.location.author@
                                        == finished_round.locations@[j].0@;
                                assert(r@[i0] == pre[i0]);
                            } else {
                                assert(r@[r@.len() - 1].body.location.author@
                                    == finished_round.locations@[j].0@);
                            }
                        }
                    }
                },
                None => {
                    proof {
                        assert(!spec_includable(finished_round.locations@[li as int].1));
                    }
                },
            }
            li = li + 1;
        }
        proof {
            assert(finished_round.locations@.subrange(
                0,
                finished_round.locations@.len() as int,
            ) =~= finished_round.locations@);
        }
        r
    }

    /// How many locations of the round can contribute to the local
    /// node's `includes` — the executable counterpart of the producer's
    /// quorum precondition, for callers that must test it first.
    pub fn count_includable(finished_round: &DagRound) -> (c: usize)
        requires
            spec_round_ok(*finished_round),
        ensures
            c as int == spec_count_includable(finished_round.locations@),
    {
        let mut c: usize = 0;
        let mut li: usize = 0;
        while li < finished_round.locations.len()
            invariant
                0 <= li <= finished_round.locations@.len(),
                c <= li,
                c as int == spec_count_includable(
                    finished_round.locations@.subrange(0, li as int),
                ),
            decreases finished_round.locations@.len() - li,
        {
            proof {
                assert(finished_round.locations@.subrange(0, li + 1).drop_last()
                    =~= finished_round.locations@.subrange(0, li as int));
                assert(finished_round.locations@.subrange(0, li + 1).last()
                    == finished_round.locations@[li as int]);
            }
            let loc = &finished_round.locations[li].1;
            let author_ok = match loc.signed {
                Some((_, accepted)) => accepted,
                None => true,
            };
            if author_ok && first_trusted(loc).is_some() {
                c = c + 1;
            } else {
                proof {
                    assert(!spec_includable(finished_round.locations@[li as int].1));
                }
            }
            li = li + 1;
        }
        proof {
            assert(finished_round.locations@.subrange(
                0,
                finished_round.locations@.len() as int,
            ) =~= finished_round.locations@);
        }
        c
    }

    /// Every point of the round below the finished one that the local
    /// node signed as of the finished round; one point per author.
    #[verifier::rlimit(60)]
    fn witness(witness_round: &DagRound, finished_round_num: u32) -> (r: Vec<&Point>)
        requires
            spec_round_ok(*witness_round),
        ensures
            spec_selected_valid(*witness_round, r@),
    {
        let mut r: Vec<&Point> = Vec::new();
        let mut li: usize = 0;
        while li < witness_round.locations.len()
            invariant
                0 <= li <= witness_round.locations@.len(),
                spec_round_ok(*witness_round),
                spec_selected_valid(*witness_round, r@),
                forall|i: int|
                    #![trigger r@[i]]
                    0 <= i < r@.len() ==> (exists|j: int|
                        0 <= j < li && witness_round.locations@[j].0@
                            == r@[i].body.location.author@),
            decreases witness_round.locations@.len() - li,
        {
            proof {
                assert(spec_location_ok(
                    witness_round.round.0,
                    witness_round.locations@[li as int].0@,
                    witness_round.locations@[li as int].1,
                ));
            }
            let loc = &witness_round.locations[li].1;
            let signed_here = match loc.signed {
                Some((at, accepted)) => accepted && at == finished_round_num,
                None => false,
            };
            let picked = if signed_here {
                first_valid(loc)
            } else {
                None
            };
            match picked {
                Some(p) => {
                    proof {
                        let k = choose|k: int|
                            0 <= k < loc.versions@.len() && (loc.versions@[k].1 == Slot::Done(
                                DagPoint::Trusted(ValidPoint { point: *p }),
                            ) || loc.versions@[k].1 == Slot::Done(
                                DagPoint::Suspicious(ValidPoint { point: *p }),
                            ));
                        assert(spec_slot_ok(
                            witness_round.round.0,
                            witness_round.locations@[li as int].0@,
                            loc.versions@[k].0@,
                            loc.versions@[k].1,
                        ));
                        assert(p.body.location.author@
                            == witness_round.locations@[li as int].0@);
                        assert(p.digest@ == loc.versions@[k].0@);
                        let w = choose|w: int|
                            0 <= w < witness_round.locations@.len()
                                && witness_round.locations@[w].0@
                                == witness_round.locations@[li as int].0@;
                        assert(w == li as int);
                        assert(witness_round.spec_loc(p.body.location.author@)
                            == witness_round.locations@[li as int].1);
                        let w2 = choose|w2: int|
                            0 <= w2 < loc.versions@.len() && loc.versions@[w2].0@ == p.digest@;
                        if w2 != k {
                            assert(loc.versions@[w2].0@ == loc.versions@[k].0@);
                        }
                        assert(w2 == k);
                        assert(loc.spec_version(p.digest@) == loc.versions@[k].1);
                    }
                    r.push(p);
                },
                None => {},
            }
            li = li + 1;
        }
        r
    }
}

/// Whether `link` rests on the given selections: a direct or indirect
/// link goes through an author present in the matching selection, and an
/// indirect link reaches strictly further back than the dependency it
/// goes through.
pub open spec fn spec_link_on_sel(
    link: Link,
    sel: Seq<&Point>,
    wit: Seq<&Point>,
    round: u32,
) -> bool {
    match link {
        Link::ToSelf => true,
        Link::Direct(Through::Includes(a)) => exists|i: int|
            0 <= i < sel.len() && (#[trigger] sel[i]).body.location.author@ == a@,
        Link::Direct(Through::Witness(a)) => exists|i: int|
            0 <= i < wit.len() && (#[trigger] wit[i]).body.location.author@ == a@,
        Link::Indirect { to, path: Through::Includes(a) } => (exists|i: int|
            0 <= i < sel.len() && (#[trigger] sel[i]).body.location.author@ == a@)
            && to.location.round.0 + 1 < round,
        Link::Indirect { to, path: Through::Witness(a) } => (exists|i: int|
            0 <= i < wit.len() && (#[trigger] wit[i]).body.location.author@ == a@)
            && to.location.round.0 + 2 < round,
    }
}

/// Whether the local node is this round's designated leader for the
/// anchor role of `field`.
pub open spec fn spec_is_leader_of(
    stage: Option<AnchorStage>,
    local_id: PeerId,
    field: LinkField,
) -> bool {
    match (stage, field) {
        (Some(AnchorStage::Proof { leader }), LinkField::Proof) => leader@ == local_id@,
        (Some(AnchorStage::Trigger { leader }), LinkField::Trigger) => leader@ == local_id@,
        _ => false,
    }
}

/// Whether `link` is the link derived from the dependency point `p`,
/// reached through the given map: direct when `p` is itself an anchor
/// candidate (its own link for the role is `ToSelf`), else indirect to
/// `p`'s claimed anchor.
pub open spec fn spec_link_through(link: Link, p: Point, field: LinkField, by_witness: bool) -> bool {
    if spec_link(p.body, field) is ToSelf {
        link == (if by_witness {
            Link::Direct(Through::Witness(p.body.location.author))
        } else {
            Link::Direct(Through::Includes(p.body.location.author))
        })
    } else {
        link == (if by_witness {
            Link::Indirect {
                to: crate::point::spec_anchor_id(p, field),
                path: Through::Witness(p.body.location.author),
            }
        } else {
            Link::Indirect {
                to: crate::point::spec_anchor_id(p, field),
                path: Through::Includes(p.body.location.author),
            }
        })
    }
}

impl Producer {
    /// The freshest anchor link of one role reachable through `includes`:
    /// the local leader links to itself; otherwise the include with the
    /// greatest anchor round for that role is linked directly if it is an
    /// anchor candidate itself, else indirectly through it.
    fn link_from_includes(
        local_id: &PeerId,
        current_round: Round,
        stage: &Option<AnchorStage>,
        includes: &Vec<&Point>,
        field: LinkField,
    ) -> (r: Link)
        requires
            includes@.len() > 0,
            forall|i: int|
                #![trigger includes@[i]]
                0 <= i < includes@.len() ==> crate::point::spec_well_formed(includes@[i].body)
                    && includes@[i].body.location.round.0 + 1 == current_round.0,
        ensures
            r is ToSelf <==> spec_is_leader_of(*stage, *local_id, field),
            spec_link_on_sel(r, includes@, Seq::empty(), current_round.0),
            !(r is ToSelf) ==> (exists|b: int|
                0 <= b < includes@.len() && (forall|j: int|
                    0 <= j < includes@.len() ==> crate::point::spec_anchor_round(
                        (#[trigger] includes@[j]).body,
                        field,
                    ) <= crate::point::spec_anchor_round(includes@[b].body, field))
                    && spec_link_through(r, *(#[trigger] includes@[b]), field, false)),
    {
        let is_leader = match (stage, field) {
            (Some(AnchorStage::Proof { leader }), LinkField::Proof) => *leader == *local_id,
            (Some(AnchorStage::Trigger { leader }), LinkField::Trigger) => *leader == *local_id,
            _ => false,
        };
        if is_leader {
            return Link::ToSelf;
        }
        let mut best: usize = 0;
        let mut i: usize = 1;
        while i < includes.len()
            invariant
                0 <= best < i <= includes@.len(),
                includes@.len() > 0,
                forall|j: int|
                    #![trigger includes@[j]]
                    0 <= j < includes@.len() ==> crate::point::spec_well_formed(
                        includes@[j].body,
                    ) && includes@[j].body.location.round.0 + 1 == current_round.0,
                forall|j: int|
                    0 <= j < i ==> crate::point::spec_anchor_round(
                        (#[trigger] includes@[j]).body,
                        field,
                    ) <= crate::point::spec_anchor_round(includes@[best as int].body, field),
            decreases includes@.len() - i,
        {
            if includes[i].anchor_round(field).0 > includes[best].anchor_round(field).0 {
                best = i;
            }
            i = i + 1;
        }
        let point = includes[best];
        let to_self = match point.anchor_link(field) {
            Link::ToSelf => true,
            _ => false,
        };
        if to_self {
            Link::Direct(Through::Includes(point.body.location.author))
        } else {
            proof {
                lemma_anchor_id_round_lt(*point, field);
            }
            Link::Indirect {
                to: point.anchor_id(field),
                path: Through::Includes(point.body.location.author),
            }
        }
    }

    /// Re-attempts the anchor link against `witness`, keeping it only
    /// when a witness point knows a strictly later anchor round than the
    /// link reached through `includes`.
    pub fn update_link_from_witness(
        link: &mut Link,
        current_round: Round,
        witness: &Vec<&Point>,
        field: LinkField,
    )
        requires
            forall|i: int|
                #![trigger witness@[i]]
                0 <= i < witness@.len() ==> crate::point::spec_well_formed(witness@[i].body)
                    && witness@[i].body.location.round.0 + 2 == current_round.0,
        ensures
            (*old(link) is ToSelf || *old(link) is Direct) ==> *final(link) == *old(link),
            (*final(link) is ToSelf) == (*old(link) is ToSelf),
            (forall|sel: Seq<&Point>|
                spec_link_on_sel(*old(link), sel, Seq::empty(), current_round.0)
                    ==> spec_link_on_sel(*final(link), sel, witness@, current_round.0)),
            (*old(link) matches Link::Indirect { to, .. } && (forall|j: int|
                0 <= j < witness@.len() ==> crate::point::spec_anchor_round(
                    (#[trigger] witness@[j]).body,
                    field,
                ) <= to.location.round.0)) ==> *final(link) == *old(link),
            (*old(link) matches Link::Indirect { to, .. } && (exists|j: int|
                0 <= j < witness@.len() && crate::point::spec_anchor_round(
                    (#[trigger] witness@[j]).body,
                    field,
                ) > to.location.round.0)) ==> (exists|b: int|
                0 <= b < witness@.len() && crate::point::spec_anchor_round(
                    witness@[b].body,
                    field,
                ) > (*old(link))->Indirect_to.location.round.0 && (forall|j: int|
                    0 <= j < witness@.len() ==> crate::point::spec_anchor_round(
                        (#[trigger] witness@[j]).body,
                        field,
                    ) <= crate::point::spec_anchor_round(witness@[b].body, field))
                    && spec_link_through(*final(link), *(#[trigger] witness@[b]), field, true)),
    {
        let link_round = match link {
            Link::ToSelf => {
                return ;
            },
            Link::Direct(_) => {
                return ;
            },
            Link::Indirect { to, .. } => to.location.round,
        };
        let mut found: Option<usize> = None;
        let mut i: usize = 0;
        while i < witness.len()
            invariant
                0 <= i <= witness@.len(),
                forall|j: int|
                    #![trigger witness@[j]]
                    0 <= j < witness@.len() ==> crate::point::spec_well_formed(
                        witness@[j].body,
                    ) && witness@[j].body.location.round.0 + 2 == current_round.0,
                match found {
                    Some(b) => 0 <= b < i && crate::point::spec_anchor_round(
                        witness@[b as int].body,
                        field,
                    ) > link_round.0 && (forall|j: int|
                        0 <= j < i ==> crate::point::spec_anchor_round(
                            (#[trigger] witness@[j]).body,
                            field,
                        ) <= crate::point::spec_anchor_round(witness@[b as int].body, field)),
                    None => forall|j: int|
                        0 <= j < i ==> crate::point::spec_anchor_round(
                            (#[trigger] witness@[j]).body,
                            field,
                        ) <= link_round.0,
                },
            decreases witness@.len() - i,
        {
            let better = match &found {
                Some(b) => witness[i].anchor_round(field).0 > witness[*b].anchor_round(field).0,
                None => witness[i].anchor_round(field).0 > link_round.0,
            };
            if better {
                found = Some(i);
            }
            i = i + 1;
        }
        let b = match found {
            Some(b) => b,
            None => {
                return ;
            },
        };
        let point = witness[b];
        let to_self = match point.anchor_link(field) {
            Link::ToSelf => true,
            _ => false,
        };
        if to_self {
            *link = Link::Direct(Through::Witness(point.body.location.author));
        } else {
            proof {
                lemma_anchor_id_round_lt(*point, field);
            }
            *link = Link::Indirect {
                to: point.anchor_id(field),
                path: Through::Witness(point.body.location.author),
            };
        }
    }

    /// Derives the point's logical time: no earlier than the local clock,
    /// than the author's own previous point, and than whichever
    /// dependency the anchor-proof link actually goes through.
    fn get_time(
        dag: &Dag,
        finished_round: &DagRound,
        local_id: &PeerId,
        anchor_proof: &Link,
        prev_point: Option<&PrevPoint>,
        includes: &Vec<&Point>,
        witness: &Vec<&Point>,
        now: UnixTime,
    ) -> (r: UnixTime)
        requires
            dag.wf(),
            spec_round_ok(*finished_round),
        ensures
            r.0 as int == spec_max(
                now.0 as int,
                spec_max(
                    match prev_point {
                        Some(prev) => spec_own_prev_time(*finished_round, local_id@, prev.digest@),
                        None => 0,
                    },
                    spec_anchor_path_time(
                        *dag,
                        *anchor_proof,
                        prev_point is Some,
                        includes@,
                        witness@,
                    ),
                ),
            ),
    {
        let ghost prev_component = match prev_point {
            Some(prev) => spec_own_prev_time(*finished_round, local_id@, prev.digest@),
            None => 0,
        };
        let mut time = now;
        match prev_point {
            Some(prev) => {
                match finished_round.get_location(local_id) {
                    Some(loc) => {
                        proof {
                            lemma_round_loc_sound(*finished_round, local_id@);
                        }
                        match loc.get_version(&prev.digest) {
                            Some(Slot::Done(DagPoint::Trusted(v))) => {
                                time = v.point.body.time.max(time);
                            },
                            Some(Slot::Done(DagPoint::Suspicious(v))) => {
                                time = v.point.body.time.max(time);
                            },
                            _ => {},
                        }
                    },
                    None => {},
                }
            },
            None => {},
        }
        proof {
            assert(time.0 as int == spec_max(now.0 as int, prev_component));
        }
        let ghost floor = time.0;
        match anchor_proof {
            Link::ToSelf => {},
            Link::Direct(through) => {
                let (peer, list) = match through {
                    Through::Includes(peer) => (peer, includes),
                    Through::Witness(peer) => (peer, witness),
                };
                let mut i: usize = 0;
                let mut taken = false;
                while i < list.len() && !taken
                    invariant
                        0 <= i <= list@.len(),
                        time.0 >= floor,
                        !taken ==> time.0 == floor && (forall|j: int|
                            0 <= j < i ==> (#[trigger] list@[j]).body.location.author@
                                != peer@),
                        taken ==> time.0 as int == spec_max(
                            floor as int,
                            spec_author_time(list@, peer@),
                        ),
                    decreases list@.len() - i, (if taken {
                        0int
                    } else {
                        1int
                    }),
                {
                    if list[i].body.location.author == *peer {
                        proof {
                            lemma_author_time_skip(list@, peer@, i as int);
                            assert(list@.skip(i as int)[0] == list@[i as int]);
                        }
                        time = list[i].body.time.max(time);
                        taken = true;
                    } else {
                        i = i + 1;
                    }
                }
                proof {
                    if !taken {
                        lemma_author_time_skip(list@, peer@, list@.len() as int);
                        assert(list@.skip(list@.len() as int) =~= Seq::empty());
                    }
                }
            },
            Link::Indirect { to, .. } => {
                // the previous point, when it exists, already carries the
                // freshest anchor time; otherwise take it from the anchor
                // point itself, while it is still retained
                if prev_point.is_none() {
                    let bottom = dag.bottom_round();
                    let top = dag.top().round;
                    if to.location.round.0 >= bottom.0 && to.location.round.0 <= top.0 {
                        let round_ref = dag.scan(to.location.round).unwrap();
                        match round_ref.get_location(&to.location.author) {
                            Some(loc) => {
                                proof {
                                    lemma_round_loc_sound(*round_ref, to.location.author@);
                                }
                                match loc.get_version(&to.digest) {
                                    Some(Slot::Done(DagPoint::Trusted(v))) => {
                                        time = v.point.body.time.max(time);
                                    },
                                    Some(Slot::Done(DagPoint::Suspicious(v))) => {
                                        time = v.point.body.time.max(time);
                                    },
                                    _ => {},
                                }
                            },
                            None => {},
                        }
                    }
                }
            },
        }
        time
    }
}

impl Producer {
    /// Builds, times and signs the local node's next point at the
    /// ledger's newest round. Returns nothing when no previous round is
    /// retained, or when the local node is this round's leader for an
    /// anchor role and has no previous point to chain — a leader must
    /// yield the slot rather than fork a new anchor base. The produced
    /// point satisfies the same structural invariant that verification
    /// checks of a peer's point.
    #[verifier::rlimit(100)]
    pub fn new_point(
        dag: &Dag,
        key_pair: &everscale_crypto::ed25519::KeyPair,
        local_id: &PeerId,
        prev_point: Option<&PrevPoint>,
        payload: Vec<Vec<u8>>,
        now: UnixTime,
    ) -> (r: Option<Point>)
        requires
            dag.wf(),
            ({
                let top = dag.spec_top();
                let producing = top > dag.spec_bottom();
                let finished = dag.spec_round_at(spec_prev(top));
                let current = dag.spec_round_at(top);
                &&& producing ==> spec_count_includable(finished.locations@)
                    >= finished.node_count.spec_faults() * 2 + 1
                &&& (producing && prev_point is Some) ==> finished.spec_has_loc(local_id@)
                    && spec_includable(finished.spec_loc(local_id@)) && (forall|k: int|
                    #![trigger finished.spec_loc(local_id@).versions@[k]]
                    0 <= k < finished.spec_loc(local_id@).versions@.len() && (finished.spec_loc(
                        local_id@,
                    ).versions@[k].1 matches Slot::Done(DagPoint::Trusted(_)))
                        ==> finished.spec_loc(local_id@).versions@[k].0@
                        == prev_point->Some_0.digest@)
                &&& prev_point is Some ==> evidence_keys_distinct(prev_point->Some_0.evidence@)
                    && !evidence_has_key(prev_point->Some_0.evidence@, local_id@)
                &&& (producing && prev_point is Some) ==> prev_point->Some_0.evidence@.len()
                    as int >= current.node_count.spec_faults() * 2
                &&& (producing && prev_point is None && finished.spec_has_loc(local_id@))
                    ==> !spec_has_trusted(finished.spec_loc(local_id@))
            }),
        ensures
            ({
                let top = dag.spec_top();
                let producing = top > dag.spec_bottom();
                let leader_no_prev = (match dag.spec_round_at(top).anchor_stage {
                    Some(st) => st.spec_leader()@ == local_id@ && prev_point is None,
                    None => false,
                });
                &&& (r is Some) == (producing && !leader_no_prev)
                &&& r is Some ==> r->0.body.location.round.0 == top
                    && r->0.body.location.author@ == local_id@ && spec_well_formed(r->0.body)
                    && r->0.body.payload@ == payload@ && ((r->0.body.proof is Some) == (
                    prev_point is Some)) && (prev_point is Some
                    ==> r->0.body.proof->Some_0.digest@ == prev_point->Some_0.digest@
                        && r->0.body.proof->Some_0.evidence@ == prev_point->Some_0.evidence@)
                    && r->0.body.time.0 >= now.0 && r->0.body.includes@.len() as int
                    >= dag.spec_round_at(spec_prev(top)).node_count.spec_faults() * 2 + 1
                    && r->0.digest@ == sha256_of(spec_body_bytes(r->0.body))
                &&& r is Some ==> (forall|j: int|
                    #![trigger r->0.body.includes@[j]]
                    0 <= j < r->0.body.includes@.len() ==> ({
                        let finished = dag.spec_round_at(spec_prev(top));
                        let a = r->0.body.includes@[j].0@;
                        let d = r->0.body.includes@[j].1@;
                        &&& finished.spec_has_loc(a)
                        &&& spec_includable(finished.spec_loc(a))
                        &&& finished.spec_loc(a).spec_has_version(d)
                        &&& (match finished.spec_loc(a).spec_version(d) {
                            Slot::Done(DagPoint::Trusted(v)) => v.point.body.location.author@
                                == a && v.point.digest@ == d,
                            _ => false,
                        })
                    }))
                &&& r is Some ==> (forall|j: int|
                    #![trigger r->0.body.witness@[j]]
                    0 <= j < r->0.body.witness@.len() ==> ({
                        let below = dag.spec_round_at(spec_prev(spec_prev(top)));
                        let a = r->0.body.witness@[j].0@;
                        let d = r->0.body.witness@[j].1@;
                        &&& below.spec_has_loc(a)
                        &&& below.spec_loc(a).spec_has_version(d)
                        &&& (match below.spec_loc(a).spec_version(d) {
                            Slot::Done(DagPoint::Trusted(v)) => v.point.body.location.author@
                                == a && v.point.digest@ == d,
                            Slot::Done(DagPoint::Suspicious(v)) => v.point.body.location.author@
                                == a && v.point.digest@ == d,
                            _ => false,
                        })
                    }))
            }),
    {
        let current = dag.top().round;
        let bottom = dag.bottom_round();
        let stage = dag.top().anchor_stage;
        if current.0 == bottom.0 {
            return None;
        }
        let leader_no_prev = match &stage {
            Some(AnchorStage::Proof { leader }) => *leader == *local_id && prev_point.is_none(),
            Some(AnchorStage::Trigger { leader }) => *leader == *local_id
                && prev_point.is_none(),
            None => false,
        };
        if leader_no_prev {
            // a leader that failed to chain its own previous point must
            // yield the slot rather than fork a new anchor base
            return None;
        }
        proof {
            lemma_window_shape(*dag);
            assert(current.0 == dag.spec_top());
            assert(spec_prev(current.0) >= dag.spec_bottom());
            assert(spec_prev(current.0) <= dag.spec_top());
        }
        let finished_round = dag.scan(current.prev()).unwrap();
        proof {
            lemma_retained_round_ok(*dag, spec_prev(current.0));
        }
        let includes_list = Self::includes(finished_round);
        proof {
            finished_round.node_count.lemma_faults_nonneg();
            assert(includes_list@.len() >= finished_round.node_count.spec_faults() * 2 + 1);
        }
        proof {
            assert forall|i: int|
                #![trigger includes_list@[i]]
                0 <= i < includes_list@.len() implies spec_well_formed(includes_list@[i].body)
                && includes_list@[i].body.location.round.0 + 1 == current.0 by {
                let a = includes_list@[i].body.location.author@;
                lemma_round_loc_sound(*finished_round, a);
                lemma_location_slot_sound(
                    finished_round.round.0,
                    a,
                    finished_round.spec_loc(a),
                    includes_list@[i].digest@,
                );
            }
        }
        let witness_list: Vec<&Point> = if finished_round.round.0 > bottom.0 {
            proof {
                lemma_retained_round_ok(*dag, spec_prev(spec_prev(current.0)));
            }
            let witness_round = dag.scan(finished_round.round.prev()).unwrap();
            let w = Self::witness(witness_round, finished_round.round.0);
            proof {
                assert forall|i: int|
                    #![trigger w@[i]]
                    0 <= i < w@.len() implies spec_well_formed(w@[i].body)
                    && w@[i].body.location.round.0 + 2 == current.0 by {
                    let a = w@[i].body.location.author@;
                    lemma_round_loc_sound(*witness_round, a);
                    lemma_location_slot_sound(
                        witness_round.round.0,
                        a,
                        witness_round.spec_loc(a),
                        w@[i].digest@,
                    );
                }
            }
            w
        } else {
            Vec::new()
        };
        let mut anchor_trigger = Self::link_from_includes(
            local_id,
            current,
            &stage,
            &includes_list,
            LinkField::Trigger,
        );
        let mut anchor_proof = Self::link_from_includes(
            local_id,
            current,
            &stage,
            &includes_list,
            LinkField::Proof,
        );
        Self::update_link_from_witness(
            &mut anchor_trigger,
            current,
            &witness_list,
            LinkField::Trigger,
        );
        Self::update_link_from_witness(
            &mut anchor_proof,
            current,
            &witness_list,
            LinkField::Proof,
        );
        let time = Self::get_time(
            dag,
            finished_round,
            local_id,
            &anchor_proof,
            prev_point,
            &includes_list,
            &witness_list,
            now,
        );
        let mut includes: Vec<(PeerId, Digest)> = Vec::new();
        let mut i: usize = 0;
        while i < includes_list.len()
            invariant
                0 <= i <= includes_list@.len(),
                includes@.len() == i,
                forall|j: int|
                    #![trigger includes@[j]]
                    0 <= j < i ==> includes@[j].0 == includes_list@[j].body.location.author
                        && includes@[j].1 == includes_list@[j].digest,
            decreases includes_list@.len() - i,
        {
            includes.push((includes_list[i].body.location.author, includes_list[i].digest));
            i = i + 1;
        }
        let mut witness: Vec<(PeerId, Digest)> = Vec::new();
        let mut k: usize = 0;
        while k < witness_list.len()
            invariant
                0 <= k <= witness_list@.len(),
                witness@.len() == k,
                forall|j: int|
                    #![trigger witness@[j]]
                    0 <= j < k ==> witness@[j].0 == witness_list@[j].body.location.author
                        && witness@[j].1 == witness_list@[j].digest,
            decreases witness_list@.len() - k,
        {
            witness.push((witness_list[k].body.location.author, witness_list[k].digest));
            k = k + 1;
        }
        let prev = match prev_point {
            Some(p) => Some(p.clone()),
            None => None,
        };
        let body = PointBody {
            location: Location { round: current, author: *local_id },
            time,
            payload,
            proof: prev,
            includes,
            witness,
            anchor_trigger,
            anchor_proof,
        };
        proof {
            lemma_produced_body_well_formed(
                body,
                *dag,
                includes_list@,
                witness_list@,
                match prev_point {
                    Some(p) => Some(*p),
                    None => None,
                },
                *local_id,
            );
        }
        Some(Point::new(key_pair, body))
    }
}

/// The body the producer assembles is structurally well-formed: its
/// dependency maps mirror the trusted selections, its proof matches its
/// own `includes` entry, and its links rest on named dependencies.
proof fn lemma_produced_body_well_formed(
    body: PointBody,
    dag: Dag,
    sel: Seq<&Point>,
    wit: Seq<&Point>,
    prev_point: Option<PrevPoint>,
    local_id: PeerId,
)
    requires
        dag.wf(),
        dag.spec_top() > dag.spec_bottom(),
        body.location.round.0 == dag.spec_top(),
        body.location.author@ == local_id@,
        spec_selected_trusted(dag.spec_round_at(spec_prev(dag.spec_top())), sel),
        spec_selected_valid(
            dag.spec_round_at(spec_prev(spec_prev(dag.spec_top()))),
            wit,
        ) || wit.len() == 0,
        wit.len() > 0 ==> spec_prev(dag.spec_top()) > dag.spec_bottom(),
        body.includes@.len() == sel.len(),
        forall|j: int|
            #![trigger body.includes@[j]]
            0 <= j < sel.len() ==> body.includes@[j].0 == sel[j].body.location.author
                && body.includes@[j].1 == sel[j].digest,
        body.witness@.len() == wit.len(),
        forall|j: int|
            #![trigger body.witness@[j]]
            0 <= j < wit.len() ==> body.witness@[j].0 == wit[j].body.location.author
                && body.witness@[j].1 == wit[j].digest,
        (body.proof is Some) == (prev_point is Some),
        prev_point is Some ==> body.proof->Some_0.digest@ == prev_point->Some_0.digest@
            && body.proof->Some_0.evidence@ == prev_point->Some_0.evidence@,
        prev_point is Some ==> evidence_keys_distinct(prev_point->Some_0.evidence@)
            && !evidence_has_key(prev_point->Some_0.evidence@, local_id@),
        prev_point is Some ==> ({
            let finished = dag.spec_round_at(spec_prev(dag.spec_top()));
            finished.spec_has_loc(local_id@) && spec_includable(finished.spec_loc(local_id@))
                && (forall|k: int|
                #![trigger finished.spec_loc(local_id@).versions@[k]]
                0 <= k < finished.spec_loc(local_id@).versions@.len() && (finished.spec_loc(
                    local_id@,
                ).versions@[k].1 matches Slot::Done(DagPoint::Trusted(_)))
                    ==> finished.spec_loc(local_id@).versions@[k].0@
                    == prev_point->Some_0.digest@)
        }),
        prev_point is None && dag.spec_round_at(spec_prev(dag.spec_top())).spec_has_loc(local_id@)
            ==> !spec_has_trusted(
            dag.spec_round_at(spec_prev(dag.spec_top())).spec_loc(local_id@),
        ),
        forall|li: int|
            #![trigger dag.spec_round_at(spec_prev(dag.spec_top())).locations@[li]]
            0 <= li < dag.spec_round_at(spec_prev(dag.spec_top())).locations@.len()
                && spec_includable(
                dag.spec_round_at(spec_prev(dag.spec_top())).locations@[li].1,
            ) ==> (exists|i: int|
                0 <= i < sel.len() && sel[i].body.location.author@
                    == dag.spec_round_at(spec_prev(dag.spec_top())).locations@[li].0@),
        spec_link_on_sel(body.anchor_trigger, sel, wit, body.location.round.0),
        spec_link_on_sel(body.anchor_proof, sel, wit, body.location.round.0),
        (body.anchor_proof is ToSelf) ==> body.proof is Some,
        (body.anchor_trigger is ToSelf) ==> body.proof is Some,
    ensures
        spec_well_formed(body),
{
    let top = dag.spec_top();
    let finished = dag.spec_round_at(spec_prev(top));
    proof_body_distinct(body, sel, wit);
    // the witness map can be non-empty only two rounds past the window's
    // bottom, hence past the genesis-adjacent round
    if body.witness@.len() > 0 {
        assert(spec_prev(top) > dag.spec_bottom());
    }
    // proof and the own `includes` entry agree
    lemma_retained_round_ok(dag, spec_prev(top));
    match prev_point {
        Some(prev) => {
            let li = choose|li: int|
                0 <= li < finished.locations@.len() && finished.locations@[li].0@ == local_id@;
            assert(finished.spec_loc(local_id@) == finished.locations@[li].1);
            assert(spec_includable(finished.locations@[li].1));
            let i = choose|i: int|
                0 <= i < sel.len() && sel[i].body.location.author@
                    == finished.locations@[li].0@;
            assert(body.includes@[i].0@ == local_id@);
            assert(deps_has_key(body.includes@, local_id@));
            let k = choose|k: int|
                0 <= k < body.includes@.len() && body.includes@[k].0@ == local_id@;
            if k != i {
                assert(sel[k].body.location.author@ == sel[i].body.location.author@);
            }
            assert(k == i);
            // the selected entry is a trusted version of the own location,
            // and every trusted version there carries the proven digest
            lemma_round_loc_sound(finished, local_id@);
            let loc = finished.spec_loc(local_id@);
            assert(loc.spec_has_version(sel[i].digest@));
            let k0 = choose|k0: int|
                0 <= k0 < loc.versions@.len() && loc.versions@[k0].0@ == sel[i].digest@;
            assert(loc.spec_version(sel[i].digest@) == loc.versions@[k0].1);
            assert(loc.versions@[k0].1 matches Slot::Done(DagPoint::Trusted(_)));
            assert(loc.versions@[k0].0@ == prev.digest@);
            assert(crate::dep_map::spec_deps_get(body.includes@, local_id@)@ == prev.digest@);
        },
        None => {
            assert(!deps_has_key(body.includes@, local_id@)) by {
                if deps_has_key(body.includes@, local_id@) {
                    let k = choose|k: int|
                        0 <= k < body.includes@.len() && body.includes@[k].0@ == local_id@;
                    assert(sel[k].body.location.author@ == local_id@);
                    assert(finished.spec_has_loc(local_id@));
                    lemma_round_loc_sound(finished, local_id@);
                    let loc = finished.spec_loc(local_id@);
                    assert(loc.spec_has_version(sel[k].digest@));
                    let k0 = choose|k0: int|
                        0 <= k0 < loc.versions@.len() && loc.versions@[k0].0@
                            == sel[k].digest@;
                    assert(loc.spec_version(sel[k].digest@) == loc.versions@[k0].1);
                    assert(loc.versions@[k0].1 matches Slot::Done(DagPoint::Trusted(_)));
                    assert(spec_has_trusted(loc));
                }
            }
        },
    }
    proof_link_wf(body, sel, wit, LinkField::Proof);
    proof_link_wf(body, sel, wit, LinkField::Trigger);
}

/// The producer's dependency maps mirror the selections' authors, which
/// are pairwise distinct.
proof fn proof_body_distinct(body: PointBody, sel: Seq<&Point>, wit: Seq<&Point>)
    requires
        body.includes@.len() == sel.len(),
        forall|j: int|
            #![trigger body.includes@[j]]
            0 <= j < sel.len() ==> body.includes@[j].0 == sel[j].body.location.author
                && body.includes@[j].1 == sel[j].digest,
        body.witness@.len() == wit.len(),
        forall|j: int|
            #![trigger body.witness@[j]]
            0 <= j < wit.len() ==> body.witness@[j].0 == wit[j].body.location.author
                && body.witness@[j].1 == wit[j].digest,
        forall|i: int, j: int|
            0 <= i < j < sel.len() ==> sel[i].body.location.author@
                != sel[j].body.location.author@,
        wit.len() > 0 ==> (forall|i: int, j: int|
            0 <= i < j < wit.len() ==> wit[i].body.location.author@
                != wit[j].body.location.author@),
    ensures
        crate::dep_map::deps_keys_distinct(body.includes@),
        crate::dep_map::deps_keys_distinct(body.witness@),
{
    assert forall|i: int, j: int|
        0 <= i < j < body.includes@.len() implies body.includes@[i].0@
        != body.includes@[j].0@ by {
        assert(sel[i].body.location.author@ != sel[j].body.location.author@);
    }
    assert forall|i: int, j: int|
        0 <= i < j < body.witness@.len() implies body.witness@[i].0@
        != body.witness@[j].0@ by {
        assert(wit[i].body.location.author@ != wit[j].body.location.author@);
    }
}

/// A link resting on the selections is backed by the maps built from
/// them.
proof fn proof_link_wf(body: PointBody, sel: Seq<&Point>, wit: Seq<&Point>, field: LinkField)
    requires
        body.includes@.len() == sel.len(),
        forall|j: int|
            #![trigger body.includes@[j]]
            0 <= j < sel.len() ==> body.includes@[j].0 == sel[j].body.location.author
                && body.includes@[j].1 == sel[j].digest,
        body.witness@.len() == wit.len(),
        forall|j: int|
            #![trigger body.witness@[j]]
            0 <= j < wit.len() ==> body.witness@[j].0 == wit[j].body.location.author
                && body.witness@[j].1 == wit[j].digest,
        spec_link_on_sel(spec_link(body, field), sel, wit, body.location.round.0),
    ensures
        spec_link_well_formed(body, field),
{
    match spec_link(body, field) {
        Link::ToSelf => {
        },
        Link::Direct(Through::Includes(a)) => {
            let i = choose|i: int|
                0 <= i < sel.len() && sel[i].body.location.author@ == a@;
            assert(body.includes@[i].0@ == a@);
        },
        Link::Direct(Through::Witness(a)) => {
            let i = choose|i: int|
                0 <= i < wit.len() && wit[i].body.location.author@ == a@;
            assert(body.witness@[i].0@ == a@);
        },
        Link::Indirect { to, path: Through::Includes(a) } => {
            let i = choose|i: int|
                0 <= i < sel.len() && sel[i].body.location.author@ == a@;
            assert(body.includes@[i].0@ == a@);
        },
        Link::Indirect { to, path: Through::Witness(a) } => {
            let i = choose|i: int|
                0 <= i < wit.len() && wit[i].body.location.author@ == a@;
            assert(body.witness@[i].0@ == a@);
        },
    }
}

} // verus!
