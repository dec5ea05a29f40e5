//! Canonical byte encoding of a point body, used only for content
//! addressing: the digest of a point is the SHA-256 hash of these bytes,
//! and the author signs that digest. The network wire format is a concern
//! of the surrounding node, not of this crate.

use vstd::prelude::*;

use crate::crypto::{keypair_sign, sha256, sha256_of, sig_valid};
use crate::models::{Digest, Location, PeerId, PointId, Signature};
use crate::point::{Link, Point, PointBody, PrevPoint, Through};

verus! {

/// Little-endian bytes of a 32-bit number.
pub open spec fn spec_u32_le(x: u32) -> Seq<u8> {
    seq![
        (x % 256) as u8,
        ((x / 256) % 256) as u8,
        ((x / 65536) % 256) as u8,
        ((x / 16777216) % 256) as u8,
    ]
}

/// Little-endian bytes of a 64-bit number.
pub open spec fn spec_u64_le(x: u64) -> Seq<u8> {
    seq![
        (x % 256) as u8,
        ((x / 256) % 256) as u8,
        ((x / 65536) % 256) as u8,
        ((x / 16777216) % 256) as u8,
        ((x / 4294967296) % 256) as u8,
        ((x / 1099511627776) % 256) as u8,
        ((x / 281474976710656) % 256) as u8,
        ((x / 72057594037927936) % 256) as u8,
    ]
}

/// A length-prefixed byte string.
pub open spec fn spec_byte_str(b: Seq<u8>) -> Seq<u8> {
    spec_u64_le(b.len() as u64) + b
}

/// A location: round then author.
pub open spec fn spec_location_bytes(l: Location) -> Seq<u8> {
    spec_u32_le(l.round.0) + l.author@
}

/// A point identity: location then digest.
pub open spec fn spec_point_id_bytes(id: PointId) -> Seq<u8> {
    spec_location_bytes(id.location) + id.digest@
}

/// The concatenated entries of a dependency map.
pub open spec fn spec_deps_entries_bytes(entries: Seq<(PeerId, Digest)>) -> Seq<u8>
    decreases entries.len(),
{
    if entries.len() == 0 {
        Seq::empty()
    } else {
        spec_deps_entries_bytes(entries.drop_last()) + entries.last().0@ + entries.last().1@
    }
}

/// A dependency map: entry count then entries.
pub open spec fn spec_deps_bytes(entries: Seq<(PeerId, Digest)>) -> Seq<u8> {
    spec_u64_le(entries.len() as u64) + spec_deps_entries_bytes(entries)
}

/// The concatenated entries of an evidence map.
pub open spec fn spec_evidence_entries_bytes(entries: Seq<(PeerId, Signature)>) -> Seq<u8>
    decreases entries.len(),
{
    if entries.len() == 0 {
        Seq::empty()
    } else {
        spec_evidence_entries_bytes(entries.drop_last()) + entries.last().0@
            + entries.last().1@
    }
}

/// An evidence map: entry count then entries.
pub open spec fn spec_evidence_bytes(entries: Seq<(PeerId, Signature)>) -> Seq<u8> {
    spec_u64_le(entries.len() as u64) + spec_evidence_entries_bytes(entries)
}

/// The concatenated length-prefixed blobs of a payload.
pub open spec fn spec_payload_blobs_bytes(payload: Seq<Vec<u8>>) -> Seq<u8>
    decreases payload.len(),
{
    if payload.len() == 0 {
        Seq::empty()
    } else {
        spec_payload_blobs_bytes(payload.drop_last()) + spec_byte_str(payload.last()@)
    }
}

/// A payload: blob count then blobs.
pub open spec fn spec_payload_bytes(payload: Seq<Vec<u8>>) -> Seq<u8> {
    spec_u64_le(payload.len() as u64) + spec_payload_blobs_bytes(payload)
}

/// An optional proof: a tag byte, then digest and evidence if present.
pub open spec fn spec_proof_bytes(prev: Option<PrevPoint>) -> Seq<u8> {
    match prev {
        None => seq![0u8],
        Some(p) => seq![1u8] + p.digest@ + spec_evidence_bytes(p.evidence@),
    }
}

/// A through-value: a tag byte then the peer.
pub open spec fn spec_through_bytes(t: Through) -> Seq<u8> {
    match t {
        Through::Includes(peer) => seq![0u8] + peer@,
        Through::Witness(peer) => seq![1u8] + peer@,
    }
}

/// A link: a tag byte, then its target and path as far as present.
pub open spec fn spec_link_bytes(l: Link) -> Seq<u8> {
    match l {
        Link::ToSelf => seq![0u8],
        Link::Direct(t) => seq![1u8] + spec_through_bytes(t),
        Link::Indirect { to, path } => seq![2u8] + spec_point_id_bytes(to)
            + spec_through_bytes(path),
    }
}

/// The canonical bytes of a whole point body.
pub open spec fn spec_body_bytes(b: PointBody) -> Seq<u8> {
    spec_location_bytes(b.location) + spec_u64_le(b.time.0) + spec_payload_bytes(b.payload@)
        + spec_proof_bytes(b.proof) + spec_deps_bytes(b.includes@) + spec_deps_bytes(b.witness@)
        + spec_link_bytes(b.anchor_trigger) + spec_link_bytes(b.anchor_proof)
}

/// Appends a byte slice.
fn push_slice(out: &mut Vec<u8>, data: &[u8])
    ensures
        final(out)@ == old(out)@ + data@,
{
    let mut i: usize = 0;
    while i < data.len()
        invariant
            0 <= i <= data@.len(),
            out@ == old(out)@ + data@.subrange(0, i as int),
        decreases data@.len() - i,
    {
        out.push(data[i]);
        proof {
            assert(out@ =~= old(out)@ + data@.subrange(0, i + 1));
        }
        i = i + 1;
    }
    proof {
        assert(out@ =~= old(out)@ + data@);
    }
}

/// Appends a 32-bit number, little endian.
fn push_u32_le(out: &mut Vec<u8>, x: u32)
    ensures
        final(out)@ == old(out)@ + spec_u32_le(x),
{
    out.push((x % 256) as u8);
    out.push(((x / 256) % 256) as u8);
    out.push(((x / 65536) % 256) as u8);
    out.push(((x / 16777216) % 256) as u8);
    proof {
        assert(out@ =~= old(out)@ + spec_u32_le(x));
    }
}

/// Appends a 64-bit number, little endian.
fn push_u64_le(out: &mut Vec<u8>, x: u64)
    ensures
        final(out)@ == old(out)@ + spec_u64_le(x),
{
    out.push((x % 256) as u8);
    out.push(((x / 256) % 256) as u8);
    out.push(((x / 65536) % 256) as u8);
    out.push(((x / 16777216) % 256) as u8);
    out.push(((x / 4294967296) % 256) as u8);
    out.push(((x / 1099511627776) % 256) as u8);
    out.push(((x / 281474976710656) % 256) as u8);
    out.push(((x / 72057594037927936) % 256) as u8);
    proof {
        assert(out@ =~= old(out)@ + spec_u64_le(x));
    }
}

/// Appends a length-prefixed byte string.
fn push_byte_str(out: &mut Vec<u8>, data: &Vec<u8>)
    ensures
        final(out)@ == old(out)@ + spec_byte_str(data@),
{
    push_u64_le(out, data.len() as u64);
    push_slice(out, data.as_slice());
}

/// Appends a location.
fn push_location(out: &mut Vec<u8>, l: &Location)
    ensures
        final(out)@ == old(out)@ + spec_location_bytes(*l),
{
    push_u32_le(out, l.round.0);
    push_slice(out, &l.author.0);
}

/// Appends a point identity.
fn push_point_id(out: &mut Vec<u8>, id: &PointId)
    ensures
        final(out)@ == old(out)@ + spec_point_id_bytes(*id),
{
    push_location(out, &id.location);
    push_slice(out, &id.digest.0);
}

/// Appends a dependency map.
fn push_deps(out: &mut Vec<u8>, entries: &Vec<(PeerId, Digest)>)
    ensures
        final(out)@ == old(out)@ + spec_deps_bytes(entries@),
{
    push_u64_le(out, entries.len() as u64);
    let ghost mid = out@;
    let mut i: usize = 0;
    while i < entries.len()
        invariant
            0 <= i <= entries@.len(),
            out@ == mid + spec_deps_entries_bytes(entries@.subrange(0, i as int)),
        decreases entries@.len() - i,
    {
        push_slice(out, &entries[i].0 .0);
        push_slice(out, &entries[i].1 .0);
        proof {
            assert(entries@.subrange(0, i + 1).drop_last() =~= entries@.subrange(0, i as int));
            assert(entries@.subrange(0, i + 1).last() == entries@[i as int]);
            assert(out@ =~= mid + spec_deps_entries_bytes(entries@.subrange(0, i + 1)));
        }
        i = i + 1;
    }
    proof {
        assert(entries@.subrange(0, entries@.len() as int) =~= entries@);
    }
}

/// Appends an evidence map.
fn push_evidence(out: &mut Vec<u8>, entries: &Vec<(PeerId, Signature)>)
    ensures
        final(out)@ == old(out)@ + spec_evidence_bytes(entries@),
{
    push_u64_le(out, entries.len() as u64);
    let ghost mid = out@;
    let mut i: usize = 0;
    while i < entries.len()
        invariant
            0 <= i <= entries@.len(),
            out@ == mid + spec_evidence_entries_bytes(entries@.subrange(0, i as int)),
        decreases entries@.len() - i,
    {
        push_slice(out, &entries[i].0 .0);
        push_slice(out, &entries[i].1 .0);
        proof {
            assert(entries@.subrange(0, i + 1).drop_last() =~= entries@.subrange(0, i as int));
            assert(entries@.subrange(0, i + 1).last() == entries@[i as int]);
            assert(out@ =~= mid + spec_evidence_entries_bytes(entries@.subrange(0, i + 1)));
        }
        i = i + 1;
    }
    proof {
        assert(entries@.subrange(0, entries@.len() as int) =~= entries@);
    }
}

/// Appends a payload.
fn push_payload(out: &mut Vec<u8>, payload: &Vec<Vec<u8>>)
    ensures
        final(out)@ == old(out)@ + spec_payload_bytes(payload@),
{
    push_u64_le(out, payload.len() as u64);
    let ghost mid = out@;
    let mut i: usize = 0;
    while i < payload.len()
        invariant
            0 <= i <= payload@.len(),
            out@ == mid + spec_payload_blobs_bytes(payload@.subrange(0, i as int)),
        decreases payload@.len() - i,
    {
        push_byte_str(out, &payload[i]);
        proof {
            assert(payload@.subrange(0, i + 1).drop_last() =~= payload@.subrange(0, i as int));
            assert(payload@.subrange(0, i + 1).last() == payload@[i as int]);
            assert(out@ =~= mid + spec_payload_blobs_bytes(payload@.subrange(0, i + 1)));
        }
        i = i + 1;
    }
    proof {
        assert(payload@.subrange(0, payload@.len() as int) =~= payload@);
    }
}

/// Appends a through-value.
fn push_through(out: &mut Vec<u8>, t: &Through)
    ensures
        final(out)@ == old(out)@ + spec_through_bytes(*t),
{
    match t {
        Through::Includes(peer) => {
            out.push(0u8);
            push_slice(out, &peer.0);
        },
        Through::Witness(peer) => {
            out.push(1u8);
            push_slice(out, &peer.0);
        },
    }
    proof {
        assert(out@ =~= old(out)@ + spec_through_bytes(*t));
    }
}

/// Appends a link.
fn push_link(out: &mut Vec<u8>, l: &Link)
    ensures
        final(out)@ == old(out)@ + spec_link_bytes(*l),
{
    match l {
        Link::ToSelf => {
            out.push(0u8);
        },
        Link::Direct(t) => {
            out.push(1u8);
            push_through(out, t);
        },
        Link::Indirect { to, path } => {
            out.push(2u8);
            push_point_id(out, to);
            push_through(out, path);
        },
    }
    proof {
        assert(out@ =~= old(out)@ + spec_link_bytes(*l));
    }
}

/// The canonical bytes of a point body.
pub fn encode_body(b: &PointBody) -> (r: Vec<u8>)
    ensures
        r@ == spec_body_bytes(*b),
{
    let mut out: Vec<u8> = Vec::new();
    push_location(&mut out, &b.location);
    push_u64_le(&mut out, b.time.0);
    push_payload(&mut out, &b.payload);
    match &b.proof {
        None => {
            out.push(0u8);
        },
        Some(p) => {
            out.push(1u8);
            push_slice(&mut out, &p.digest.0);
            push_evidence(&mut out, &p.evidence);
        },
    }
    push_deps(&mut out, &b.includes);
    push_deps(&mut out, &b.witness);
    push_link(&mut out, &b.anchor_trigger);
    push_link(&mut out, &b.anchor_proof);
    proof {
        assert(out@ =~= spec_body_bytes(*b));
    }
    out
}

/// Whether the point's digest is the hash of its body and its signature
/// is a valid signature by its claimed author over that digest.
pub open spec fn spec_integrity_ok(p: Point) -> bool {
    p.digest@ == sha256_of(spec_body_bytes(p.body)) && sig_valid(
        p.body.location.author@,
        p.digest@,
        p.signature@,
    )
}

impl Point {
    /// Hashes and signs a freshly built body. Local production is trusted
    /// by construction; nothing is claimed of the signature.
    pub fn new(key_pair: &everscale_crypto::ed25519::KeyPair, body: PointBody) -> (r: Point)
        ensures
            r.body == body,
            r.digest@ == sha256_of(spec_body_bytes(body)),
    {
        let bytes = encode_body(&body);
        let digest = sha256(bytes.as_slice());
        let signature = keypair_sign(key_pair, &digest.0);
        Point { body, digest, signature }
    }

    /// The first and mandatory check of any received point: whether its
    /// digest and signature match its body and claimed author.
    pub fn is_integrity_ok(&self) -> (r: bool)
        ensures
            r == spec_integrity_ok(*self),
    {
        let bytes = encode_body(&self.body);
        let computed = sha256(bytes.as_slice());
        if !crate::models::bytes32_eq(&computed.0, &self.digest.0) {
            return false;
        }
        crate::crypto::ed25519_verify(
            &self.body.location.author,
            &self.digest.0,
            &self.signature,
        )
    }
}

} // verus!
