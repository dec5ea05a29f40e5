//! The point model: one author's signed contribution to one round, with
//! its dependency maps, its proof of the author's previous point and its
//! two anchor-tracing links, plus the validation verdict type.

use vstd::prelude::*;

use crate::dep_map::{
    deps_has_key, deps_keys_distinct, deps_find, deps_contains_key, deps_check_distinct,
    spec_deps_get, evidence_has_key, evidence_keys_distinct, evidence_contains_key,
    evidence_check_distinct,
};
use crate::models::{Digest, Location, PeerId, PointId, Round, Signature, UnixTime, GENESIS_ROUND};

verus! {

/// Which dependency map a link goes through, and through which peer.
#[derive(Clone, Copy, Debug)]
pub enum Through {
    Includes(PeerId),
    Witness(PeerId),
}

/// How a point relates to an anchor candidate: it is one itself, the
/// anchor is one hop away through a named dependency, or it is further
/// back, reached transitively through the named dependency. Links never
/// point forward.
#[derive(Clone, Copy, Debug)]
pub enum Link {
    ToSelf,
    Direct(Through),
    Indirect { to: PointId, path: Through },
}

/// The two anchor roles a link can trace.
#[derive(Clone, Copy, Debug)]
pub enum LinkField {
    Trigger,
    Proof,
}

/// Reference to the author's own point at the previous round: its digest
/// and the delivery signatures ("evidence") collected from the committee.
#[derive(Debug)]
pub struct PrevPoint {
    pub digest: Digest,
    pub evidence: Vec<(PeerId, Signature)>,
}

impl Clone for PrevPoint {
    fn clone(&self) -> (r: Self)
        ensures
            r.digest == self.digest,
            r.evidence@ == self.evidence@,
    {
        let mut evidence: Vec<(PeerId, Signature)> = Vec::new();
        let mut i: usize = 0;
        while i < self.evidence.len()
            invariant
                0 <= i <= self.evidence@.len(),
                evidence@ == self.evidence@.subrange(0, i as int),
            decreases self.evidence@.len() - i,
        {
            evidence.push(self.evidence[i]);
            proof {
                assert(evidence@ =~= self.evidence@.subrange(0, i + 1));
            }
            i = i + 1;
        }
        proof {
            assert(evidence@ =~= self.evidence@);
        }
        PrevPoint { digest: self.digest, evidence }
    }
}

/// The content of one point, hashed into its digest.
#[derive(Debug)]
pub struct PointBody {
    pub location: Location,
    pub time: UnixTime,
    pub payload: Vec<Vec<u8>>,
    pub proof: Option<PrevPoint>,
    pub includes: Vec<(PeerId, Digest)>,
    pub witness: Vec<(PeerId, Digest)>,
    pub anchor_trigger: Link,
    pub anchor_proof: Link,
}

/// An immutable, content-addressed message: body, content digest and the
/// author's signature over the digest.
#[derive(Debug)]
pub struct Point {
    pub body: PointBody,
    pub digest: Digest,
    pub signature: Signature,
}

/// The blob contents of a payload.
pub open spec fn payload_view(p: Seq<Vec<u8>>) -> Seq<Seq<u8>> {
    Seq::new(p.len(), |i: int| p[i]@)
}

/// Whether two optional proofs carry the same content.
pub open spec fn prev_eq(a: Option<PrevPoint>, b: Option<PrevPoint>) -> bool {
    match (a, b) {
        (Some(x), Some(y)) => x.digest == y.digest && x.evidence@ == y.evidence@,
        (None, None) => true,
        _ => false,
    }
}

/// Whether two point bodies carry the same content.
pub open spec fn body_eq(a: PointBody, b: PointBody) -> bool {
    a.location == b.location && a.time == b.time && payload_view(a.payload@) == payload_view(
        b.payload@,
    ) && prev_eq(a.proof, b.proof) && a.includes@ == b.includes@ && a.witness@ == b.witness@
        && a.anchor_trigger == b.anchor_trigger && a.anchor_proof == b.anchor_proof
}

/// Whether two points carry the same content.
pub open spec fn points_eq(a: Point, b: Point) -> bool {
    body_eq(a.body, b.body) && a.digest == b.digest && a.signature == b.signature
}

/// Copies one byte blob.
pub fn clone_bytes(v: &Vec<u8>) -> (r: Vec<u8>)
    ensures
        r@ == v@,
{
    let mut r: Vec<u8> = Vec::new();
    let mut i: usize = 0;
    while i < v.len()
        invariant
            0 <= i <= v@.len(),
            r@ == v@.subrange(0, i as int),
        decreases v@.len() - i,
    {
        r.push(v[i]);
        proof {
            assert(r@ =~= v@.subrange(0, i + 1));
        }
        i = i + 1;
    }
    proof {
        assert(r@ =~= v@);
    }
    r
}

impl Clone for PointBody {
    fn clone(&self) -> (r: Self)
        ensures
            body_eq(r, *self),
    {
        let mut payload: Vec<Vec<u8>> = Vec::new();
        let mut i: usize = 0;
        while i < self.payload.len()
            invariant
                0 <= i <= self.payload@.len(),
                payload@.len() == i,
                forall|j: int| 0 <= j < i ==> payload@[j]@ == self.payload@[j]@,
            decreases self.payload@.len() - i,
        {
            let blob = clone_bytes(&self.payload[i]);
            payload.push(blob);
            i = i + 1;
        }
        let mut includes: Vec<(PeerId, Digest)> = Vec::new();
        let mut k: usize = 0;
        while k < self.includes.len()
            invariant
                0 <= k <= self.includes@.len(),
                includes@ == self.includes@.subrange(0, k as int),
            decreases self.includes@.len() - k,
        {
            includes.push(self.includes[k]);
            proof {
                assert(includes@ =~= self.includes@.subrange(0, k + 1));
            }
            k = k + 1;
        }
        let mut witness: Vec<(PeerId, Digest)> = Vec::new();
        let mut m: usize = 0;
        while m < self.witness.len()
            invariant
                0 <= m <= self.witness@.len(),
                witness@ == self.witness@.subrange(0, m as int),
            decreases self.witness@.len() - m,
        {
            witness.push(self.witness[m]);
            proof {
                assert(witness@ =~= self.witness@.subrange(0, m + 1));
            }
            m = m + 1;
        }
        let prev = match &self.proof {
            Some(p) => Some(p.clone()),
            None => None,
        };
        let r = PointBody {
            location: self.location,
            time: self.time,
            payload,
            proof: prev,
            includes,
            witness,
            anchor_trigger: self.anchor_trigger,
            anchor_proof: self.anchor_proof,
        };
        proof {
            assert(r.includes@ =~= self.includes@);
            assert(r.witness@ =~= self.witness@);
            assert(payload_view(r.payload@) =~= payload_view(self.payload@));
        }
        r
    }
}

impl Clone for Point {
    fn clone(&self) -> (r: Self)
        ensures
            points_eq(r, *self),
    {
        Point { body: self.body.clone(), digest: self.digest, signature: self.signature }
    }
}

/// The link of `b` for the given role.
pub open spec fn spec_link(b: PointBody, field: LinkField) -> Link {
    match field {
        LinkField::Trigger => b.anchor_trigger,
        LinkField::Proof => b.anchor_proof,
    }
}

/// The round of the anchor that `b` claims for the given role.
pub open spec fn spec_anchor_round(b: PointBody, field: LinkField) -> u32 {
    match spec_link(b, field) {
        Link::ToSelf => b.location.round.0,
        Link::Direct(Through::Includes(_)) => if b.location.round.0 > 0 {
            (b.location.round.0 - 1) as u32
        } else {
            0u32
        },
        Link::Direct(Through::Witness(_)) => if b.location.round.0 > 1 {
            (b.location.round.0 - 2) as u32
        } else {
            0u32
        },
        Link::Indirect { to, .. } => to.location.round.0,
    }
}

/// Whether the link of `b` for the given role is backed by an entry of the
/// matching dependency map, and an indirect link reaches strictly further
/// back than the dependency it goes through.
pub open spec fn spec_link_well_formed(b: PointBody, field: LinkField) -> bool {
    match spec_link(b, field) {
        Link::ToSelf => true,
        Link::Direct(Through::Includes(peer)) => deps_has_key(b.includes@, peer@),
        Link::Direct(Through::Witness(peer)) => deps_has_key(b.witness@, peer@),
        Link::Indirect { to, path: Through::Includes(peer) } => deps_has_key(b.includes@, peer@)
            && to.location.round.0 + 1 < b.location.round.0,
        Link::Indirect { to, path: Through::Witness(peer) } => deps_has_key(b.witness@, peer@)
            && to.location.round.0 + 2 < b.location.round.0,
    }
}

/// Whether the proof field and the `includes` entry under the point's own
/// author agree: both absent, or naming the same digest.
pub open spec fn spec_proof_matches_includes(b: PointBody) -> bool {
    match b.proof {
        Some(p) => deps_has_key(b.includes@, b.location.author@) && spec_deps_get(
            b.includes@,
            b.location.author@,
        )@ == p.digest@,
        None => !deps_has_key(b.includes@, b.location.author@),
    }
}

/// Structural well-formedness of a point body: dependency keys unique, a
/// genesis point empty and self-linked, witness absent right after
/// genesis, a self-linked non-genesis point chained to its own proof,
/// proof and includes consistent, evidence free of the author's own
/// signature, and both anchor links backed by dependencies.
pub open spec fn spec_well_formed(b: PointBody) -> bool {
    deps_keys_distinct(b.includes@) && deps_keys_distinct(b.witness@) && (match b.proof {
        Some(p) => evidence_keys_distinct(p.evidence@) && !evidence_has_key(
            p.evidence@,
            b.location.author@,
        ),
        None => true,
    }) && (if b.location.round.0 == GENESIS_ROUND {
        b.includes@.len() == 0 && b.witness@.len() == 0 && b.payload@.len() == 0
            && b.proof is None && b.anchor_proof is ToSelf && b.anchor_trigger is ToSelf
    } else {
        (b.location.round.0 > GENESIS_ROUND + 1 || b.witness@.len() == 0) && (b.anchor_proof
            is ToSelf ==> b.proof is Some) && (b.anchor_trigger is ToSelf ==> b.proof is Some)
    }) && spec_proof_matches_includes(b) && spec_link_well_formed(b, LinkField::Proof)
        && spec_link_well_formed(b, LinkField::Trigger)
}

/// The identity of the point a link of `p` goes through: `p` itself for
/// `ToSelf`, else the named dependency one or two rounds back. Meaningful
/// only for a well-formed body.
pub open spec fn spec_anchor_link_id(p: Point, field: LinkField) -> PointId {
    match spec_link(p.body, field) {
        Link::ToSelf => PointId { location: p.body.location, digest: p.digest },
        Link::Direct(Through::Includes(peer)) | Link::Indirect {
            path: Through::Includes(peer),
            ..
        } => PointId {
            location: Location {
                round: Round(
                    if p.body.location.round.0 > 0 {
                        (p.body.location.round.0 - 1) as u32
                    } else {
                        0u32
                    },
                ),
                author: peer,
            },
            digest: spec_deps_get(p.body.includes@, peer@),
        },
        Link::Direct(Through::Witness(peer)) | Link::Indirect {
            path: Through::Witness(peer),
            ..
        } => PointId {
            location: Location {
                round: Round(
                    if p.body.location.round.0 > 1 {
                        (p.body.location.round.0 - 2) as u32
                    } else {
                        0u32
                    },
                ),
                author: peer,
            },
            digest: spec_deps_get(p.body.witness@, peer@),
        },
    }
}

/// The identity of the anchor that `p` claims for the given role.
pub open spec fn spec_anchor_id(p: Point, field: LinkField) -> PointId {
    match spec_link(p.body, field) {
        Link::Indirect { to, .. } => to,
        _ => spec_anchor_link_id(p, field),
    }
}

impl Point {
    /// This point's globally unique identity.
    pub open spec fn spec_id(self) -> PointId {
        PointId { location: self.body.location, digest: self.digest }
    }

    /// This point's globally unique identity.
    pub fn id(&self) -> (r: PointId)
        ensures
            r == self.spec_id(),
    {
        PointId { location: self.body.location, digest: self.digest }
    }

    /// The link of this point for the given role.
    pub fn anchor_link(&self, field: LinkField) -> (r: &Link)
        ensures
            *r == spec_link(self.body, field),
    {
        match field {
            LinkField::Trigger => &self.body.anchor_trigger,
            LinkField::Proof => &self.body.anchor_proof,
        }
    }

    /// The round of the anchor that this point claims for the given role.
    pub fn anchor_round(&self, field: LinkField) -> (r: Round)
        ensures
            r.0 == spec_anchor_round(self.body, field),
    {
        match self.anchor_link(field) {
            Link::ToSelf => self.body.location.round,
            Link::Direct(Through::Includes(_)) => self.body.location.round.prev(),
            Link::Direct(Through::Witness(_)) => self.body.location.round.prev().prev(),
            Link::Indirect { to, .. } => to.location.round,
        }
    }

    /// The identity of the point this point's link goes through.
    pub fn anchor_link_id(&self, field: LinkField) -> (r: PointId)
        requires
            spec_well_formed(self.body),
        ensures
            r == spec_anchor_link_id(*self, field),
    {
        match self.anchor_link(field) {
            Link::ToSelf => PointId { location: self.body.location, digest: self.digest },
            Link::Direct(Through::Includes(peer)) | Link::Indirect {
                path: Through::Includes(peer),
                ..
            } => {
                let author = *peer;
                let digest = deps_find(&self.body.includes, &author).unwrap();
                PointId {
                    location: Location { round: self.body.location.round.prev(), author },
                    digest,
                }
            },
            Link::Direct(Through::Witness(peer)) | Link::Indirect {
                path: Through::Witness(peer),
                ..
            } => {
                let author = *peer;
                let digest = deps_find(&self.body.witness, &author).unwrap();
                PointId {
                    location: Location {
                        round: self.body.location.round.prev().prev(),
                        author,
                    },
                    digest,
                }
            },
        }
    }

    /// Whether the link for the given role is backed by its dependency map.
    pub fn is_link_well_formed(&self, field: LinkField) -> (r: bool)
        ensures
            r == spec_link_well_formed(self.body, field),
    {
        match self.anchor_link(field) {
            Link::ToSelf => true,
            Link::Direct(Through::Includes(peer)) => deps_contains_key(&self.body.includes, peer),
            Link::Direct(Through::Witness(peer)) => deps_contains_key(&self.body.witness, peer),
            Link::Indirect { to, path: Through::Includes(peer) } => deps_contains_key(
                &self.body.includes,
                peer,
            ) && (to.location.round.0 as u64) + 1 < (self.body.location.round.0 as u64),
            Link::Indirect { to, path: Through::Witness(peer) } => deps_contains_key(
                &self.body.witness,
                peer,
            ) && (to.location.round.0 as u64) + 2 < (self.body.location.round.0 as u64),
        }
    }

    /// Structural well-formedness of this point's body.
    pub fn is_well_formed(&self) -> (r: bool)
        ensures
            r == spec_well_formed(self.body),
    {
        let b = &self.body;
        if !deps_check_distinct(&b.includes) {
            return false;
        }
        if !deps_check_distinct(&b.witness) {
            return false;
        }
        let evidence_ok = match &b.proof {
            Some(p) => evidence_check_distinct(&p.evidence) && !evidence_contains_key(
                &p.evidence,
                &b.location.author,
            ),
            None => true,
        };
        if !evidence_ok {
            return false;
        }
        if b.location.round.0 == GENESIS_ROUND {
            if !(b.includes.len() == 0 && b.witness.len() == 0 && b.payload.len() == 0
                && b.proof.is_none() && matches!(b.anchor_proof, Link::ToSelf) && matches!(
                b.anchor_trigger,
                Link::ToSelf,
            )) {
                return false;
            }
        } else {
            if !(b.location.round.0 > GENESIS_ROUND + 1 || b.witness.len() == 0) {
                return false;
            }
            if matches!(b.anchor_proof, Link::ToSelf) && b.proof.is_none() {
                return false;
            }
            if matches!(b.anchor_trigger, Link::ToSelf) && b.proof.is_none() {
                return false;
            }
        }
        let own = deps_find(&b.includes, &b.location.author);
        let proof_ok = match (&b.proof, own) {
            (Some(p), Some(d)) => d == p.digest,
            (None, None) => true,
            _ => false,
        };
        if !proof_ok {
            return false;
        }
        self.is_link_well_formed(LinkField::Proof) && self.is_link_well_formed(LinkField::Trigger)
    }

    /// The identity of the anchor this point claims for the given role.
    pub fn anchor_id(&self, field: LinkField) -> (r: PointId)
        requires
            spec_well_formed(self.body),
        ensures
            r == spec_anchor_id(*self, field),
    {
        match self.anchor_link(field) {
            Link::Indirect { to, .. } => *to,
            _ => self.anchor_link_id(field),
        }
    }
}

/// A well-formed point's claimed anchor never lies forward of the point
/// itself.
pub proof fn lemma_anchor_id_round_le(p: Point, field: LinkField)
    requires
        spec_well_formed(p.body),
    ensures
        spec_anchor_id(p, field).location.round.0 <= p.body.location.round.0,
{
    match spec_link(p.body, field) {
        Link::ToSelf => {
        },
        Link::Direct(_) => {
        },
        Link::Indirect { to, path } => {
            assert(spec_link_well_formed(p.body, field));
        },
    }
}

/// A well-formed point's claimed anchor lies strictly behind the point
/// itself unless the point links to itself.
pub proof fn lemma_anchor_id_round_lt(p: Point, field: LinkField)
    requires
        spec_well_formed(p.body),
        !(spec_link(p.body, field) is ToSelf),
    ensures
        spec_anchor_id(p, field).location.round.0 < p.body.location.round.0,
{
    assert(spec_link_well_formed(p.body, field));
    if p.body.location.round.0 == GENESIS_ROUND {
        assert(p.body.anchor_proof is ToSelf && p.body.anchor_trigger is ToSelf);
        match field {
            LinkField::Trigger => {
                assert(spec_link(p.body, field) is ToSelf);
            },
            LinkField::Proof => {
                assert(spec_link(p.body, field) is ToSelf);
            },
        }
    }
    match spec_link(p.body, field) {
        Link::ToSelf => {
        },
        Link::Direct(Through::Includes(_)) => {
        },
        Link::Direct(Through::Witness(peer)) => {
            if p.body.location.round.0 <= GENESIS_ROUND + 1 {
                assert(p.body.witness@.len() == 0);
                assert(deps_has_key(p.body.witness@, peer@));
                let w = choose|i: int|
                    0 <= i < p.body.witness@.len() && p.body.witness@[i].0@ == peer@;
            }
        },
        Link::Indirect { to, path } => {
        },
    }
}

/// A point that passed validation; usable as a dependency.
#[derive(Debug)]
pub struct ValidPoint {
    pub point: Point,
}

/// Terminal validation verdict for one (round, author, digest); cached
/// forever once computed.
#[derive(Debug)]
pub enum DagPoint {
    /// Valid in every checked respect.
    Trusted(ValidPoint),
    /// Valid, but the author provably equivocated at the previous round.
    Suspicious(ValidPoint),
    /// Violates the protocol.
    Invalid(Point),
    /// The point could not be obtained.
    NotExists(PointId),
}

impl DagPoint {
    /// The location this verdict speaks of.
    pub open spec fn spec_location(self) -> Location {
        match self {
            DagPoint::Trusted(v) => v.point.body.location,
            DagPoint::Suspicious(v) => v.point.body.location,
            DagPoint::Invalid(p) => p.body.location,
            DagPoint::NotExists(id) => id.location,
        }
    }

    /// The digest this verdict speaks of.
    pub open spec fn spec_digest(self) -> Digest {
        match self {
            DagPoint::Trusted(v) => v.point.digest,
            DagPoint::Suspicious(v) => v.point.digest,
            DagPoint::Invalid(p) => p.digest,
            DagPoint::NotExists(id) => id.digest,
        }
    }

    /// The valid point behind a `Trusted` verdict.
    pub fn trusted(&self) -> (r: Option<&ValidPoint>)
        ensures
            match r {
                Some(v) => self is Trusted && *v == self->Trusted_0,
                None => !(self is Trusted),
            },
    {
        match self {
            DagPoint::Trusted(v) => Some(v),
            _ => None,
        }
    }

    /// The valid point behind a `Trusted` or `Suspicious` verdict.
    pub fn valid(&self) -> (r: Option<&ValidPoint>)
        ensures
            match r {
                Some(v) => (self is Trusted && *v == self->Trusted_0) || (self is Suspicious
                    && *v == self->Suspicious_0),
                None => !(self is Trusted) && !(self is Suspicious),
            },
    {
        match self {
            DagPoint::Trusted(v) => Some(v),
            DagPoint::Suspicious(v) => Some(v),
            _ => None,
        }
    }
}

} // verus!
