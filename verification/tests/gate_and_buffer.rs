// Scenarios of the broadcast admission gate and the payload input buffer,
// plus exact-value checks of the threshold arithmetic, the anchor-role
// schedule, the content addressing and the small bookkeeping types.

use everscale_crypto::ed25519;

use mempool_dag::anchor_stage::AnchorStage;
use mempool_dag::broadcast_filter::{BroadcastFilter, BroadcastResponse, ConsensusEvent};
use mempool_dag::collation::{ForceMasterCollation, MessagesReaderMetrics, MetricsTimer};
use mempool_dag::input_buffer::{InputBufferImpl, InputBufferStub, EXTERNAL_MSG_MAX_BYTES};
use mempool_dag::models::{Digest, Location, NodeCount, PeerId, Round, UnixTime};
use mempool_dag::point::{Link, Point, PointBody, Through};
use mempool_dag::resolver::PeerResolverBuilder;
use mempool_dag::schedule::PeerSchedule;

fn keypair(seed: u8) -> ed25519::KeyPair {
    let secret = ed25519::SecretKey::from_bytes([seed.wrapping_add(1); 32]);
    ed25519::KeyPair::from(&secret)
}

fn committee(n: u8) -> (Vec<ed25519::KeyPair>, Vec<PeerId>) {
    let mut keys = Vec::new();
    let mut peers = Vec::new();
    for i in 0..n {
        let kp = keypair(i);
        peers.push(PeerId(kp.public_key.to_bytes()));
        keys.push(kp);
    }
    (keys, peers)
}

fn schedule_for(peers: &[PeerId], rounds: u32) -> PeerSchedule {
    let mut schedule = PeerSchedule::new();
    for r in 0..=rounds {
        schedule.set_committee(r, peers.to_vec());
    }
    schedule
}

/// A structurally valid point at `round`: phase one checks committee
/// membership of the named signers, not the existence of the referenced
/// dependencies, so the digests may be arbitrary.
fn valid_point_at(kp: &ed25519::KeyPair, peers: &[PeerId], round: u32, majority: usize) -> Point {
    let author = PeerId(kp.public_key.to_bytes());
    let mut includes = Vec::new();
    let mut filler = 1u8;
    for p in peers.iter() {
        if includes.len() >= majority {
            break;
        }
        if p.0 != author.0 {
            includes.push((*p, Digest([filler; 32])));
            filler = filler.wrapping_add(1);
        }
    }
    let through = includes[0].0;
    Point::new(
        kp,
        PointBody {
            location: Location { round: Round(round), author },
            time: UnixTime(round as u64),
            payload: Vec::new(),
            proof: None,
            includes,
            witness: Vec::new(),
            anchor_trigger: Link::Direct(Through::Includes(through)),
            anchor_proof: Link::Direct(Through::Includes(through)),
        },
    )
}

/// With a committee of seven the reliable minority is three: two distinct
/// authors broadcasting valid points one round ahead leave the admission
/// gate waiting; the third advances the local pointer and flushes the
/// buffered round.
#[test]
fn gate_advances_on_reliable_minority() {
    let (keys, peers) = committee(7);
    let schedule = schedule_for(&peers, 6);
    let mut gate = BroadcastFilter::new(4);
    let mut output: Vec<ConsensusEvent> = Vec::new();

    let p_a = valid_point_at(&keys[0], &peers, 5, 5);
    let p_b = valid_point_at(&keys[1], &peers, 5, 5);
    let p_c = valid_point_at(&keys[2], &peers, 5, 5);

    assert_eq!(gate.add(p_a, &schedule, &mut output), BroadcastResponse::TryLater);
    assert_eq!(gate.current_round(), 4);
    assert_eq!(gate.add(p_b, &schedule, &mut output), BroadcastResponse::TryLater);
    assert_eq!(gate.current_round(), 4);
    assert_eq!(gate.author_count_at(5), 2);
    assert_eq!(output.len(), 0);

    assert_eq!(gate.add(p_c, &schedule, &mut output), BroadcastResponse::Accepted);
    assert_eq!(gate.current_round(), 5);
    // the flush: one forward marker for round five, then its three points
    assert_eq!(output.len(), 4);
    assert!(matches!(output[0], ConsensusEvent::Forward(Round(5))));
    for e in output.iter().skip(1) {
        assert!(matches!(e, ConsensusEvent::Verified(_)));
    }
}

/// A peer broadcasting a lower round after a higher one violates the
/// protocol and is rejected outright, without forwarding anything.
#[test]
fn gate_rejects_out_of_order_peer() {
    let (keys, peers) = committee(7);
    let schedule = schedule_for(&peers, 10);
    let mut gate = BroadcastFilter::new(4);
    let mut output: Vec<ConsensusEvent> = Vec::new();

    let ahead = valid_point_at(&keys[0], &peers, 8, 5);
    assert_eq!(gate.add(ahead, &schedule, &mut output), BroadcastResponse::TryLater);
    let behind = valid_point_at(&keys[0], &peers, 6, 5);
    assert_eq!(gate.add(behind, &schedule, &mut output), BroadcastResponse::Rejected);
    assert_eq!(output.len(), 0);
}

/// A point at or just below the local round is answered at once and
/// forwarded for validation; an invalid one is rejected but forwarded
/// all the same.
#[test]
fn gate_answers_old_rounds_immediately() {
    let (keys, peers) = committee(7);
    let schedule = schedule_for(&peers, 10);
    let mut gate = BroadcastFilter::new(4);
    let mut output: Vec<ConsensusEvent> = Vec::new();

    let near = valid_point_at(&keys[0], &peers, 4, 5);
    assert_eq!(gate.add(near, &schedule, &mut output), BroadcastResponse::Accepted);
    assert_eq!(output.len(), 1);

    let mut stale = valid_point_at(&keys[1], &peers, 2, 5);
    stale.body.time = UnixTime(999);  // break the content digest
    assert_eq!(gate.add(stale, &schedule, &mut output), BroadcastResponse::Rejected);
    assert_eq!(output.len(), 2);
    assert!(matches!(output[1], ConsensusEvent::Invalid(_)));
}

/// A peer that moves on to a higher round abandons the round it was
/// counted at: its sighting there is forgotten, so a stale round cannot
/// reach the threshold with its help.
#[test]
fn gate_forgets_abandoned_round_of_peer() {
    let (keys, peers) = committee(7);
    let schedule = schedule_for(&peers, 10);
    let mut gate = BroadcastFilter::new(4);
    let mut output: Vec<ConsensusEvent> = Vec::new();

    let at_five = valid_point_at(&keys[0], &peers, 5, 5);
    assert_eq!(gate.add(at_five, &schedule, &mut output), BroadcastResponse::TryLater);
    assert_eq!(gate.author_count_at(5), 1);

    let at_six = valid_point_at(&keys[0], &peers, 6, 5);
    assert_eq!(gate.add(at_six, &schedule, &mut output), BroadcastResponse::TryLater);
    assert_eq!(gate.author_count_at(5), 0);
    assert_eq!(gate.author_count_at(6), 1);
}

/// A round whose committee the schedule does not know yet cannot be
/// counted: the sender must try later.
#[test]
fn gate_defers_unknown_committee() {
    let (keys, peers) = committee(7);
    let schedule = schedule_for(&peers, 6);
    let mut gate = BroadcastFilter::new(4);
    let mut output: Vec<ConsensusEvent> = Vec::new();
    let far = valid_point_at(&keys[0], &peers, 9, 5);
    assert_eq!(gate.add(far, &schedule, &mut output), BroadcastResponse::TryLater);
    assert_eq!(gate.current_round(), 4);
}

/// The input-buffer scenario: with a byte budget of 1000, adding blobs of
/// 600 and 500 bytes evicts the 600-byte blob before accepting the
/// second; a fresh fetch then returns the 500-byte blob once, and an
/// empty batch thereafter.
#[test]
fn buffer_evicts_oldest_and_replays_once() {
    let mut buffer = InputBufferImpl::new(1000);
    buffer.add(vec![1u8; 600]);
    buffer.add(vec![2u8; 500]);

    let batch = buffer.fetch(true);
    assert_eq!(batch.len(), 1);
    assert_eq!(batch[0].len(), 500);
    assert_eq!(batch[0][0], 2);

    let empty = buffer.fetch(true);
    assert_eq!(empty.len(), 0);
}

/// Without committing, a failed round replays the same batch.
#[test]
fn buffer_replays_batch_until_committed() {
    let mut buffer = InputBufferImpl::new(1000);
    buffer.add(vec![7u8; 100]);
    let first = buffer.fetch(true);
    assert_eq!(first.len(), 1);
    // the round failed: a non-fresh fetch repeats the same blob
    let replay = buffer.fetch(false);
    assert_eq!(replay.len(), 1);
    assert_eq!(replay[0][0], 7);
    // the next round committed it
    let after = buffer.fetch(true);
    assert_eq!(after.len(), 0);
}

/// The stub payload source ramps its batch size up step by step, and
/// every blob has the fixed external-message size.
#[test]
fn stub_buffer_ramps_up() {
    let mut stub = InputBufferStub::new(1, 4);
    let first = stub.fetch();
    assert_eq!(first.len(), 786432 / 4 / EXTERNAL_MSG_MAX_BYTES);
    for blob in &first {
        assert_eq!(blob.len(), EXTERNAL_MSG_MAX_BYTES);
    }
    let _ = stub.fetch();
    let _ = stub.fetch();
    let fourth = stub.fetch();
    assert_eq!(fourth.len(), 786432 / EXTERNAL_MSG_MAX_BYTES);
}

/// The quorum formulas at the sizes the protocol cares about.
#[test]
fn node_count_thresholds() {
    let seven = NodeCount::try_from(7).unwrap();
    assert_eq!(seven.majority(), 5);
    assert_eq!(seven.majority_of_others(), 4);
    assert_eq!(seven.reliable_minority(), 3);

    let four = NodeCount::try_from(4).unwrap();
    assert_eq!(four.majority(), 3);
    assert_eq!(four.majority_of_others(), 2);
    assert_eq!(four.reliable_minority(), 2);

    assert!(NodeCount::try_from(2).is_none());
}

/// The anchor roles cycle through the wave: the second round of each wave
/// proves, the third triggers, the rest carry no role.
#[test]
fn anchor_stage_wave() {
    let leader = PeerId(keypair(0).public_key.to_bytes());
    assert!(AnchorStage::of(Round(0), leader).is_none());
    assert!(matches!(AnchorStage::of(Round(1), leader), Some(AnchorStage::Proof { .. })));
    assert!(matches!(AnchorStage::of(Round(2), leader), Some(AnchorStage::Trigger { .. })));
    assert!(AnchorStage::of(Round(3), leader).is_none());
    assert!(matches!(AnchorStage::of(Round(5), leader), Some(AnchorStage::Proof { .. })));
}

/// The canonical bytes of an empty genesis body, spelled out, and the
/// digest as the hash of exactly those bytes.
#[test]
fn genesis_encoding_is_exact() {
    let kp = keypair(0);
    let author = PeerId(kp.public_key.to_bytes());
    let body = PointBody {
        location: Location { round: Round(0), author },
        time: UnixTime(0),
        payload: Vec::new(),
        proof: None,
        includes: Vec::new(),
        witness: Vec::new(),
        anchor_trigger: Link::ToSelf,
        anchor_proof: Link::ToSelf,
    };
    let bytes = mempool_dag::encode::encode_body(&body);
    let mut expected = Vec::new();
    expected.extend_from_slice(&[0u8; 4]);  // round, little endian
    expected.extend_from_slice(&author.0);  // author key
    expected.extend_from_slice(&[0u8; 8]);  // time
    expected.extend_from_slice(&[0u8; 8]);  // payload blob count
    expected.push(0);  // no proof
    expected.extend_from_slice(&[0u8; 8]);  // includes count
    expected.extend_from_slice(&[0u8; 8]);  // witness count
    expected.push(0);  // trigger: to self
    expected.push(0);  // proof link: to self
    assert_eq!(bytes, expected);

    let point = Point::new(&kp, body);
    let expected_digest: [u8; 32] = <sha2::Sha256 as sha2::Digest>::digest(&expected).into();
    assert_eq!(point.digest.0, expected_digest);
    assert!(point.is_integrity_ok());
}

/// A forced master collation is exactly one that has a reason.
#[test]
fn force_master_collation_flag() {
    assert!(!ForceMasterCollation::No.is_forced());
    assert!(ForceMasterCollation::ByUncommittedChain.is_forced());
    assert!(ForceMasterCollation::ByAnchorImportSkipped.is_forced());
    assert!(ForceMasterCollation::ByUprocessedMessages.is_forced());
}

/// The stopwatch accumulates across spans and yields zero when stopped
/// while idle.
#[test]
fn metrics_timer_accumulates() {
    let mut timer = MetricsTimer::new();
    assert_eq!(timer.stop(), 0);
    timer.start();
    let elapsed = timer.stop();
    assert_eq!(timer.total_elapsed, elapsed);

    let mut a = MessagesReaderMetrics::new();
    let mut b = MessagesReaderMetrics::new();
    b.read_ext_msgs_count = 3;
    b.add_to_msgs_groups_ops_count = u64::MAX;
    a.add_to_msgs_groups_ops_count = 5;
    a.append(b);
    assert_eq!(a.read_ext_msgs_count, 3);
    assert_eq!(a.add_to_msgs_groups_ops_count, u64::MAX);
}

/// Each builder setter replaces exactly its field over the documented
/// defaults.
#[test]
fn peer_resolver_builder_setters() {
    let config = PeerResolverBuilder::new()
        .with_min_ttl_sec(60)
        .with_update_before_sec(120)
        .with_fast_retry_count(3)
        .with_min_retry_interval(2)
        .with_max_retry_interval(30)
        .with_stale_retry_interval(90)
        .build_config();
    assert_eq!(config.min_ttl_sec, 60);
    assert_eq!(config.update_before_sec, 120);
    assert_eq!(config.fast_retry_count, 3);
    assert_eq!(config.min_retry_interval, 2);
    assert_eq!(config.max_retry_interval, 30);
    assert_eq!(config.stale_retry_interval, 90);
    assert_eq!(config.max_parallel_resolve_requests, 100);

    let defaults = PeerResolverBuilder::new().build_config();
    assert_eq!(defaults.min_ttl_sec, 600);
    assert_eq!(defaults.stale_retry_interval, 600);
}
