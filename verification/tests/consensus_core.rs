// End-to-end scenarios of the consensus core: phase-one verification,
// the round ledger, recursive validation over a small committee, and the
// producer.

use everscale_crypto::ed25519;

use mempool_dag::dag::{Dag, Slot};
use mempool_dag::deps_check::DepsChecker;
use mempool_dag::models::{Digest, Location, PeerId, Round, Signature, UnixTime};
use mempool_dag::point::{DagPoint, Link, LinkField, Point, PointBody, PrevPoint, Through, ValidPoint};
use mempool_dag::schedule::PeerSchedule;
use mempool_dag::verify::{Validation, Verifier};

fn keypair(seed: u8) -> ed25519::KeyPair {
    let secret = ed25519::SecretKey::from_bytes([seed.wrapping_add(1); 32]);
    ed25519::KeyPair::from(&secret)
}

fn committee(n: u8) -> (Vec<ed25519::KeyPair>, Vec<PeerId>) {
    let mut keys = Vec::new();
    let mut peers = Vec::new();
    for i in 0..n {
        let kp = keypair(i);
        peers.push(PeerId(kp.public_key.to_bytes()));
        keys.push(kp);
    }
    (keys, peers)
}

fn schedule_for(peers: &[PeerId], rounds: u32) -> PeerSchedule {
    let mut schedule = PeerSchedule::new();
    for r in 0..=rounds {
        schedule.set_committee(r, peers.to_vec());
    }
    schedule
}

fn genesis_point(kp: &ed25519::KeyPair) -> Point {
    Point::new(
        kp,
        PointBody {
            location: Location { round: Round(0), author: PeerId(kp.public_key.to_bytes()) },
            time: UnixTime(0),
            payload: Vec::new(),
            proof: None,
            includes: Vec::new(),
            witness: Vec::new(),
            anchor_trigger: Link::ToSelf,
            anchor_proof: Link::ToSelf,
        },
    )
}

fn evidence_for(digest: &Digest, signers: &[&ed25519::KeyPair]) -> Vec<(PeerId, Signature)> {
    signers
        .iter()
        .map(|kp| (PeerId(kp.public_key.to_bytes()), Signature(kp.sign_raw(&digest.0))))
        .collect()
}

/// Builds one signed point with the given parts.
#[allow(clippy::too_many_arguments)]
fn make_point(
    kp: &ed25519::KeyPair,
    round: u32,
    time: u64,
    includes: Vec<(PeerId, Digest)>,
    witness: Vec<(PeerId, Digest)>,
    proof: Option<PrevPoint>,
    anchor_trigger: Link,
    anchor_proof: Link,
) -> Point {
    Point::new(
        kp,
        PointBody {
            location: Location { round: Round(round), author: PeerId(kp.public_key.to_bytes()) },
            time: UnixTime(time),
            payload: Vec::new(),
            proof,
            includes,
            witness,
            anchor_trigger,
            anchor_proof,
        },
    )
}

fn resolve_trusted(dag: &mut Dag, point: &Point) {
    let round = point.body.location.round;
    let author = point.body.location.author;
    let digest = point.digest;
    dag.add_dependency_exact(round, &author, &digest);
    dag.resolve_exact(
        round,
        &author,
        &digest,
        DagPoint::Trusted(ValidPoint { point: point.clone() }),
    );
}

/// The committee for the anchor scenarios: four authors, the first one the
/// designated leader of rounds 1 and 2, with points hand-built per round.
struct AnchorWorld {
    keys: Vec<ed25519::KeyPair>,
    peers: Vec<PeerId>,
    genesis: Vec<Point>,
    round1: Vec<Point>,
    l2: Point,
    c2: Point,
    d2: Point,
}

fn anchor_world() -> AnchorWorld {
    let (keys, peers) = committee(4);
    let genesis: Vec<Point> = keys.iter().map(genesis_point).collect();
    // leader = peers[0]; authors 1..3 are the others
    let leader_key = &keys[0];

    // round 1: the leader chains its own genesis and is the proof
    // candidate; everyone else links back to genesis directly
    let l1 = make_point(
        leader_key,
        1,
        10,
        vec![
            (peers[0], genesis[0].digest),
            (peers[1], genesis[1].digest),
            (peers[2], genesis[2].digest),
        ],
        Vec::new(),
        Some(PrevPoint {
            digest: genesis[0].digest,
            evidence: evidence_for(&genesis[0].digest, &[&keys[1], &keys[2]]),
        }),
        Link::Direct(Through::Includes(peers[1])),
        Link::ToSelf,
    );
    let plain_round1 = |i: usize| {
        let mut includes = Vec::new();
        for j in 0..4 {
            if j != i && includes.len() < 3 {
                includes.push((peers[j], genesis[j].digest));
            }
        }
        let through = includes[0].0;
        make_point(
            &keys[i],
            1,
            10,
            includes,
            Vec::new(),
            None,
            Link::Direct(Through::Includes(through)),
            Link::Direct(Through::Includes(through)),
        )
    };
    let round1 = vec![l1, plain_round1(1), plain_round1(2), plain_round1(3)];

    // round 2: the leader is the trigger candidate and chains its own
    // point; the others link their anchor proof through the leader
    let l2 = make_point(
        leader_key,
        2,
        20,
        vec![
            (peers[0], round1[0].digest),
            (peers[1], round1[1].digest),
            (peers[2], round1[2].digest),
        ],
        Vec::new(),
        Some(PrevPoint {
            digest: round1[0].digest,
            evidence: evidence_for(&round1[0].digest, &[&keys[1], &keys[2]]),
        }),
        Link::ToSelf,
        Link::Direct(Through::Includes(peers[0])),
    );
    let plain_round2 = |i: usize| {
        let includes = vec![
            (peers[0], round1[0].digest),
            (peers[if i == 1 { 2 } else { 1 }], round1[if i == 1 { 2 } else { 1 }].digest),
            (peers[if i == 3 { 2 } else { 3 }], round1[if i == 3 { 2 } else { 3 }].digest),
        ];
        make_point(
            &keys[i],
            2,
            20,
            includes,
            Vec::new(),
            None,
            Link::Direct(Through::Includes(peers[0])),
            Link::Direct(Through::Includes(peers[0])),
        )
    };
    let c2 = plain_round2(2);
    let d2 = plain_round2(3);
    AnchorWorld { keys, peers, genesis, round1, l2, c2, d2 }
}

fn anchor_dag(world: &AnchorWorld, depth: usize) -> Dag {
    let leader = world.peers[0];
    let mut dag = Dag::new_bottom(Round(0), &world.peers.to_vec(), Some(leader), depth);
    dag.new_next(&world.peers.to_vec(), Some(leader));
    dag.new_next(&world.peers.to_vec(), Some(leader));
    dag.new_next(&world.peers.to_vec(), Some(leader));
    dag
}

/// The phase-one verdict is a pure function of the point's content and
/// the queried committees: byte-identical rebuilds verify identically,
/// and every verdict is reproducible.
#[test]
fn verify_is_deterministic() {
    let (keys, peers) = committee(4);
    let schedule = schedule_for(&peers, 3);
    let g = genesis_point(&keys[0]);
    assert!(Verifier::verify(&g, &schedule).is_ok());
    let g_again = genesis_point(&keys[0]);
    assert_eq!(g.digest.0, g_again.digest.0);
    assert!(Verifier::verify(&g_again, &schedule).is_ok());

    let world = anchor_world();
    let schedule = schedule_for(&world.peers, 4);
    for p in &world.round1 {
        assert!(Verifier::verify(p, &schedule).is_ok());
        assert!(Verifier::verify(p, &schedule).is_ok());
    }
}

/// A point whose digest does not match its body cannot even be
/// attributed: the verdict is `NotExists`.
#[test]
fn verify_rejects_tampered_digest() {
    let (keys, peers) = committee(4);
    let schedule = schedule_for(&peers, 3);
    let mut g = genesis_point(&keys[0]);
    g.body.time = UnixTime(1);
    match Verifier::verify(&g, &schedule) {
        Err(DagPoint::NotExists(id)) => {
            assert_eq!(id.digest.0, g.digest.0);
        },
        other => panic!("expected a NotExists verdict, got {:?}", other.is_ok()),
    }
}

/// A point with too few `includes` for the previous round's majority is
/// `Invalid`: well-formed failure, not an integrity failure.
#[test]
fn verify_rejects_thin_includes() {
    let world = anchor_world();
    let schedule = schedule_for(&world.peers, 3);
    let thin = make_point(
        &world.keys[1],
        1,
        10,
        vec![(world.peers[2], world.genesis[2].digest)],
        Vec::new(),
        None,
        Link::Direct(Through::Includes(world.peers[2])),
        Link::Direct(Through::Includes(world.peers[2])),
    );
    match Verifier::verify(&thin, &schedule) {
        Err(DagPoint::Invalid(p)) => assert_eq!(p.digest.0, thin.digest.0),
        other => panic!("expected an Invalid verdict, got {:?}", other.is_ok()),
    }
}

/// A proof without enough evidence signatures of the point's round is
/// `Invalid`.
#[test]
fn verify_rejects_thin_evidence() {
    let world = anchor_world();
    let schedule = schedule_for(&world.peers, 3);
    let weak = make_point(
        &world.keys[0],
        1,
        10,
        vec![
            (world.peers[0], world.genesis[0].digest),
            (world.peers[1], world.genesis[1].digest),
            (world.peers[2], world.genesis[2].digest),
        ],
        Vec::new(),
        Some(PrevPoint {
            digest: world.genesis[0].digest,
            evidence: evidence_for(&world.genesis[0].digest, &[&world.keys[1]]),
        }),
        Link::Direct(Through::Includes(world.peers[1])),
        Link::ToSelf,
    );
    assert!(matches!(Verifier::verify(&weak, &schedule), Err(DagPoint::Invalid(_))));
}

/// The anchor scenario: committee of four, genesis through round three,
/// one leader holding the proof role at round one and the trigger role at
/// round two. A round-three point by a non-leader reaches the round-one
/// anchor proof through an indirect link over a middle hop, and the
/// round-two trigger directly; with every dependency trusted the verdict
/// is `Trusted`.
#[test]
fn anchor_chain_resolves_trusted() {
    let world = anchor_world();
    let mut dag = anchor_dag(&world, 8);
    let p3 = make_point(
        &world.keys[1],
        3,
        30,
        vec![
            (world.peers[0], world.l2.digest),
            (world.peers[2], world.c2.digest),
            (world.peers[3], world.d2.digest),
        ],
        Vec::new(),
        None,
        Link::Direct(Through::Includes(world.peers[0])),
        Link::Indirect {
            to: world.round1[0].id(),
            path: Through::Includes(world.peers[2]),
        },
    );
    resolve_trusted(&mut dag, &world.round1[0]);
    resolve_trusted(&mut dag, &world.l2);
    resolve_trusted(&mut dag, &world.c2);
    resolve_trusted(&mut dag, &world.d2);
    match Verifier::validate(p3, &mut dag) {
        Validation::Verdict(DagPoint::Trusted(_), _) => {},
        Validation::Verdict(v, _) => panic!("unexpected verdict {:?}", v.valid().is_some()),
        Validation::Pending(ids) => panic!("unexpected pending deps: {}", ids.len()),
    }
}

/// Corrupting the middle hop — the dependency the indirect link goes
/// through no longer carries the claimed anchor — must flip the verdict
/// from `Trusted` to `Invalid`, never leave it `Trusted`.
#[test]
fn anchor_chain_broken_hop_is_invalid() {
    let world = anchor_world();
    let mut dag = anchor_dag(&world, 8);
    // the corrupted middle hop: author C's round-two point whose anchor
    // proof reaches back to genesis instead of the leader's round-one point
    let c2_bad = make_point(
        &world.keys[2],
        2,
        20,
        vec![
            (world.peers[0], world.round1[0].digest),
            (world.peers[1], world.round1[1].digest),
            (world.peers[3], world.round1[3].digest),
        ],
        Vec::new(),
        None,
        Link::Direct(Through::Includes(world.peers[0])),
        Link::Indirect {
            to: world.genesis[0].id(),
            path: Through::Includes(world.peers[0]),
        },
    );
    let p3 = make_point(
        &world.keys[1],
        3,
        30,
        vec![
            (world.peers[0], world.l2.digest),
            (world.peers[2], c2_bad.digest),
            (world.peers[3], world.d2.digest),
        ],
        Vec::new(),
        None,
        Link::Direct(Through::Includes(world.peers[0])),
        Link::Indirect {
            to: world.round1[0].id(),
            path: Through::Includes(world.peers[2]),
        },
    );
    resolve_trusted(&mut dag, &world.round1[0]);
    resolve_trusted(&mut dag, &world.l2);
    resolve_trusted(&mut dag, &c2_bad);
    resolve_trusted(&mut dag, &world.d2);
    match Verifier::validate(p3, &mut dag) {
        Validation::Verdict(DagPoint::Invalid(_), _) => {},
        _ => panic!("a broken anchor path must invalidate the point"),
    }
}

/// Re-requesting an already resolved dependency returns the memoized
/// outcome: the ledger is untouched and the task counter stays constant.
#[test]
fn dependency_resolution_is_memoized() {
    let world = anchor_world();
    let mut dag = anchor_dag(&world, 8);
    let author = world.peers[0];
    let digest = world.round1[0].digest;

    let created = dag.add_dependency_exact(Round(1), &author, &digest);
    assert!(created);
    assert_eq!(dag.tasks_created(), 1);
    dag.resolve_exact(
        Round(1),
        &author,
        &digest,
        DagPoint::Trusted(ValidPoint { point: world.round1[0].clone() }),
    );

    // re-inserting the same dependency re-runs nothing
    let created_again = dag.add_dependency_exact(Round(1), &author, &digest);
    assert!(!created_again);
    assert_eq!(dag.tasks_created(), 1);
    let round = dag.scan(Round(1)).unwrap();
    let loc = round.get_location(&author).unwrap();
    match loc.get_version(&digest) {
        Some(Slot::Done(DagPoint::Trusted(v))) => {
            assert_eq!(v.point.digest.0, digest.0);
        },
        _ => panic!("the memoized verdict must still be cached"),
    }
}

/// After the round pointer advances, every round deeper than the
/// retention depth is dropped as a unit and cannot be reached any more.
#[test]
fn retired_rounds_are_unreachable() {
    let (_, peers) = committee(4);
    let mut dag = Dag::new_bottom(Round(0), &peers.to_vec(), None, 3);
    for _ in 0..5 {
        dag.new_next(&peers.to_vec(), None);
    }
    assert_eq!(dag.top().round.0, 5);
    assert_eq!(dag.bottom_round().0, 3);
    assert!(dag.scan(Round(2)).is_none());
    assert!(dag.scan(Round(3)).is_some());
}

/// An author's equivocation at the previous round — two valid versions
/// with different digests — never folds into a `Trusted` verdict.
#[test]
fn equivocation_is_suspicious_not_trusted() {
    let world = anchor_world();
    // author 1's round-two point proving its round-one point
    let own1 = world.round1[1].clone();
    let own1_alt = make_point(
        &world.keys[1],
        1,
        11,
        vec![
            (world.peers[0], world.genesis[0].digest),
            (world.peers[2], world.genesis[2].digest),
            (world.peers[3], world.genesis[3].digest),
        ],
        Vec::new(),
        None,
        Link::Direct(Through::Includes(world.peers[0])),
        Link::Direct(Through::Includes(world.peers[0])),
    );
    let p2 = make_point(
        &world.keys[1],
        2,
        21,
        vec![
            (world.peers[0], world.round1[0].digest),
            (world.peers[1], own1.digest),
            (world.peers[2], world.round1[2].digest),
        ],
        Vec::new(),
        Some(PrevPoint { digest: own1.digest, evidence: Vec::new() }),
        Link::Direct(Through::Includes(world.peers[0])),
        Link::Direct(Through::Includes(world.peers[0])),
    );
    let mut checker = DepsChecker::new(p2);
    checker.feed(&DagPoint::Trusted(ValidPoint { point: own1 }));
    checker.feed(&DagPoint::Trusted(ValidPoint { point: own1_alt }));
    match checker.finish() {
        DagPoint::Suspicious(_) => {},
        DagPoint::Trusted(_) => panic!("equivocation must never yield Trusted"),
        _ => panic!("this equivocation alone must not invalidate"),
    }
}

/// A proven vertex with a later time than its proving point invalidates
/// the proof: trusted time is non-decreasing per author.
#[test]
fn decreasing_time_invalidates_proof() {
    let world = anchor_world();
    let own1 = world.round1[1].clone();
    // the proving point claims an earlier time than the vertex it proves
    let p2 = make_point(
        &world.keys[1],
        2,
        5,
        vec![
            (world.peers[0], world.round1[0].digest),
            (world.peers[1], own1.digest),
            (world.peers[2], world.round1[2].digest),
        ],
        Vec::new(),
        Some(PrevPoint { digest: own1.digest, evidence: Vec::new() }),
        Link::Direct(Through::Includes(world.peers[0])),
        Link::Direct(Through::Includes(world.peers[0])),
    );
    let mut checker = DepsChecker::new(p2);
    checker.feed(&DagPoint::Trusted(ValidPoint { point: own1 }));
    assert!(matches!(checker.finish(), DagPoint::Invalid(_)));
}

/// A dependency that knows a fresher anchor round than the point claims
/// invalidates it: the point failed to actualize the latest anchor chain.
#[test]
fn stale_anchor_claim_is_invalid() {
    let world = anchor_world();
    // the point claims its anchor proof all the way back at genesis ...
    let p2 = make_point(
        &world.keys[1],
        2,
        21,
        vec![
            (world.peers[0], world.round1[0].digest),
            (world.peers[2], world.round1[2].digest),
            (world.peers[3], world.round1[3].digest),
        ],
        Vec::new(),
        None,
        Link::Direct(Through::Includes(world.peers[2])),
        Link::Indirect {
            to: world.genesis[0].id(),
            path: Through::Includes(world.peers[0]),
        },
    );
    // ... but depends on the leader's round-one point, which is itself an
    // anchor proof candidate one round fresher
    let mut checker = DepsChecker::new(p2);
    checker.feed(&DagPoint::Trusted(ValidPoint { point: world.round1[0].clone() }));
    assert!(matches!(checker.finish(), DagPoint::Invalid(_)));
}

/// A missing dependency that the proof names poisons the dependent; an
/// unrelated missing dependency of a foreign author does too.
#[test]
fn missing_dependencies_invalidate() {
    let world = anchor_world();
    let own1 = world.round1[1].clone();
    let p2 = make_point(
        &world.keys[1],
        2,
        21,
        vec![
            (world.peers[0], world.round1[0].digest),
            (world.peers[1], own1.digest),
            (world.peers[2], world.round1[2].digest),
        ],
        Vec::new(),
        Some(PrevPoint { digest: own1.digest, evidence: Vec::new() }),
        Link::Direct(Through::Includes(world.peers[0])),
        Link::Direct(Through::Includes(world.peers[0])),
    );
    let mut checker = DepsChecker::new(p2.clone());
    checker.feed(&DagPoint::NotExists(own1.id()));
    assert!(matches!(checker.finish(), DagPoint::Invalid(_)));

    let mut checker = DepsChecker::new(p2);
    checker.feed(&DagPoint::NotExists(world.round1[2].id()));
    assert!(matches!(checker.finish(), DagPoint::Invalid(_)));
}

/// The producer refuses the round when it is the designated leader with
/// no previous point to chain, and otherwise emits a well-formed point
/// above its includes.
#[test]
fn producer_respects_leader_rule() {
    let world = anchor_world();
    let leader = world.peers[0];
    let mut dag = Dag::new_bottom(Round(0), &world.peers.to_vec(), Some(leader), 8);
    dag.new_next(&world.peers.to_vec(), Some(leader));
    for g in &world.genesis {
        dag.insert_exact_sign(g.clone());
    }
    // the leader of round 1 must yield without a previous point
    let refused = mempool_dag::producer::Producer::new_point(
        &dag,
        &world.keys[0],
        &world.peers[0],
        None,
        Vec::new(),
        UnixTime(100),
    );
    assert!(refused.is_none());
    // a plain author produces a point over the trusted genesis, chaining
    // its own genesis point as proof
    let prev = PrevPoint {
        digest: world.genesis[1].digest,
        evidence: evidence_for(&world.genesis[1].digest, &[&world.keys[0], &world.keys[2]]),
    };
    let produced = mempool_dag::producer::Producer::new_point(
        &dag,
        &world.keys[1],
        &world.peers[1],
        Some(&prev),
        Vec::new(),
        UnixTime(100),
    )
    .unwrap();
    assert_eq!(produced.body.location.round.0, 1);
    assert!(produced.body.time.0 >= 100);
    assert!(produced.body.includes.len() >= 3);
    assert!(produced.is_well_formed());
    assert!(produced.is_integrity_ok());
}

/// Verifying a produced point with the real committees succeeds: the
/// producer enforces what the verifier checks.
#[test]
fn produced_point_passes_verification() {
    let world = anchor_world();
    let schedule = schedule_for(&world.peers, 3);
    let leader = world.peers[0];
    let mut dag = Dag::new_bottom(Round(0), &world.peers.to_vec(), Some(leader), 8);
    dag.new_next(&world.peers.to_vec(), Some(leader));
    for g in &world.genesis {
        dag.insert_exact_sign(g.clone());
    }
    let prev = PrevPoint {
        digest: world.genesis[1].digest,
        evidence: evidence_for(&world.genesis[1].digest, &[&world.keys[0], &world.keys[2]]),
    };
    let produced = mempool_dag::producer::Producer::new_point(
        &dag,
        &world.keys[1],
        &world.peers[1],
        Some(&prev),
        Vec::new(),
        UnixTime(100),
    )
    .unwrap();
    assert!(Verifier::verify(&produced, &schedule).is_ok());
}

/// A location over which the local node refused its signature stays out
/// of the produced `includes`, and a bad broadcast signature is
/// remembered at its location.
#[test]
fn refused_signature_excludes_location() {
    let world = anchor_world();
    let leader = world.peers[0];
    let mut dag = Dag::new_bottom(Round(0), &world.peers.to_vec(), Some(leader), 8);
    dag.new_next(&world.peers.to_vec(), Some(leader));
    for g in &world.genesis {
        dag.insert_exact_sign(g.clone());
    }
    dag.mark_signed(Round(0), &world.peers[2], 1, false);
    dag.set_bad_sig_in_broadcast_exact(Round(0), &world.peers[2]);
    let loc = dag.scan(Round(0)).unwrap().get_location(&world.peers[2]).unwrap();
    assert!(loc.bad_sig_in_broadcast);
    assert_eq!(loc.signed, Some((1, false)));

    let prev = PrevPoint {
        digest: world.genesis[1].digest,
        evidence: evidence_for(&world.genesis[1].digest, &[&world.keys[0], &world.keys[2]]),
    };
    let produced = mempool_dag::producer::Producer::new_point(
        &dag,
        &world.keys[1],
        &world.peers[1],
        Some(&prev),
        Vec::new(),
        UnixTime(100),
    )
    .unwrap();
    assert_eq!(produced.body.includes.len(), 3);
    for (author, _) in &produced.body.includes {
        assert_ne!(author.0, world.peers[2].0);
    }
}

/// A point whose round fell behind the whole retained window resolves to
/// `NotExists`: the local ledger moved too far forward to validate it.
#[test]
fn validate_below_window_is_not_exists() {
    let world = anchor_world();
    let (_, peers) = (world.keys, world.peers.clone());
    let mut dag = Dag::new_bottom(Round(5), &peers.to_vec(), None, 3);
    dag.new_next(&peers.to_vec(), None);
    let g = genesis_point(&keypair(0));
    match Verifier::validate(g, &mut dag) {
        Validation::Verdict(DagPoint::NotExists(_), _) => {},
        _ => panic!("a point below the window must be NotExists"),
    }
}

/// A `ToSelf` link by anyone but the round's designated leader is
/// invalid against the ledger.
#[test]
fn self_link_by_non_leader_is_invalid() {
    let world = anchor_world();
    let mut dag = anchor_dag(&world, 8);
    // author 1 is not the leader of round 1 but links to itself
    let impostor = make_point(
        &world.keys[1],
        1,
        10,
        vec![
            (world.peers[0], world.genesis[0].digest),
            (world.peers[1], world.genesis[1].digest),
            (world.peers[2], world.genesis[2].digest),
        ],
        Vec::new(),
        Some(PrevPoint {
            digest: world.genesis[1].digest,
            evidence: evidence_for(&world.genesis[1].digest, &[&world.keys[0], &world.keys[2]]),
        }),
        Link::Direct(Through::Includes(world.peers[0])),
        Link::ToSelf,
    );
    match Verifier::validate(impostor, &mut dag) {
        Validation::Verdict(DagPoint::Invalid(_), _) => {},
        _ => panic!("a non-leader self link must be invalid"),
    }
}
