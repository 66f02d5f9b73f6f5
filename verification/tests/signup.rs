use carbon::crypto::{Digest, Identity, MultiSignature};
use carbon::external::fast_signup_broker::{
    batches, claims_from, claims_of, identities_match, sorted_by_identity, submit_claims, ClaimSubmission,
    IdClaim, ShardAnswer, SignupResponse, SubmitError,
};
use carbon::view::View;

fn identity(byte: u8) -> Identity {
    Identity::new([byte; 32])
}

fn signed(byte: u8, valid: bool) -> ShardAnswer {
    ShardAnswer::Signed { signature: MultiSignature { bytes: [byte; 96] }, valid }
}

fn view() -> View {
    View::new(Digest::new([1; 32]), 0, (1..=4).map(identity).collect(), 2, 3)
}

#[test]
fn claims_follow_allocations() {
    let clients = vec![identity(10), identity(11)];
    let claims = claims_of(&clients, &vec![(5, true), (6, true)]).unwrap();
    assert_eq!(claims[1].id, 6);
    assert_eq!(claims[1].client.hash.bytes, [11; 32]);
    assert_eq!(claims_of(&clients, &vec![(5, true)]).err(), Some(SubmitError::MalformedResponse));
    assert_eq!(
        claims_of(&clients, &vec![(5, true), (6, false)]).err(),
        Some(SubmitError::InvalidAllocation)
    );
}

#[test]
fn submission_reaches_a_quorum_of_valid_answers() {
    let claims = vec![
        IdClaim { id: 5, client: identity(10) },
        IdClaim { id: 6, client: identity(11) },
    ];
    let mut submission = ClaimSubmission::new(view(), claims);

    assert_eq!(submission.apply(identity(1), &vec![signed(1, true)]), Err(SubmitError::MalformedResponse));
    assert_eq!(submission.apply(identity(1), &vec![signed(1, true), signed(1, true)]), Ok(()));
    assert_eq!(submission.multiplicity(), 1);

    // The second answer is refused: the first one is kept, the member does not count.
    assert_eq!(
        submission.apply(identity(2), &vec![signed(2, true), signed(2, false)]),
        Err(SubmitError::InvalidShard)
    );
    assert_eq!(submission.multiplicity(), 1);

    // A collision must claim the same id for another client.
    let same_client = ShardAnswer::Collided { claim: IdClaim { id: 6, client: identity(11) }, valid: true };
    assert_eq!(
        submission.apply(identity(3), &vec![signed(3, true), same_client]),
        Err(SubmitError::NotACollision)
    );
    let forged = ShardAnswer::Collided { claim: IdClaim { id: 6, client: identity(12) }, valid: false };
    assert_eq!(
        submission.apply(identity(3), &vec![signed(3, true), forged]),
        Err(SubmitError::InvalidClaim)
    );
    let collision = ShardAnswer::Collided { claim: IdClaim { id: 6, client: identity(12) }, valid: true };
    assert_eq!(submission.apply(identity(3), &vec![signed(3, true), collision]), Ok(()));
    assert!(!submission.complete());
    // Answers about a collided slot are not looked at.
    assert_eq!(submission.apply(identity(4), &vec![signed(4, true), signed(4, false)]), Ok(()));
    assert!(submission.complete());

    let slots = submission.into_slots();
    let first = slots[0].as_ref().ok().unwrap();
    assert_eq!(first.multiplicity(), 4);
    let second = slots[1].as_ref().err().unwrap();
    assert_eq!(second.collided.client.hash.bytes, [12; 32]);
    assert_eq!(second.brokered.client.hash.bytes, [11; 32]);
}

#[test]
fn allocations_must_answer_requests() {
    let clients = vec![identity(10)];
    let claims = claims_from(&clients, &SignupResponse::IdAllocations(vec![(5, true)])).unwrap();
    assert_eq!(claims[0].id, 5);
    assert_eq!(
        claims_from(&clients, &SignupResponse::IdAssignmentShards(vec![signed(1, true)])).err(),
        Some(SubmitError::UnexpectedResponse)
    );
    assert_eq!(
        claims_from(&clients, &SignupResponse::IdAllocations(vec![(5, false)])).err(),
        Some(SubmitError::InvalidAllocation)
    );
}

#[test]
fn submission_stops_at_a_quorum() {
    let claims = vec![IdClaim { id: 5, client: identity(10) }];
    let shards = |byte: u8, valid: bool| Some(SignupResponse::IdAssignmentShards(vec![signed(byte, valid)]));
    let answers = vec![
        (identity(1), shards(1, true)),
        (identity(2), None),
        (identity(3), Some(SignupResponse::IdAllocations(vec![(5, true)]))),
        (identity(2), shards(2, false)),
        (identity(4), shards(4, true)),
        (identity(3), shards(3, true)),
        (identity(2), shards(2, true)),
    ];
    let slots = submit_claims(view(), claims.clone(), &answers).unwrap();
    // The quorum of three is reached at the sixth answer; the seventh is not applied.
    assert_eq!(slots[0].as_ref().ok().unwrap().multiplicity(), 3);

    let short = answers[..5].to_vec();
    assert_eq!(submit_claims(view(), claims, &short).err(), Some(SubmitError::MultiplicityInsufficient));
}

#[test]
fn signup_requests_are_batched_by_identity() {
    let mut second = [2u8; 32];
    second[31] = 0;
    let joint = vec![(identity(3), 30u32), (Identity::new(second), 20), (identity(1), 10), (identity(2), 21)];
    let sorted = sorted_by_identity(joint);
    let values = sorted.iter().map(|(_, value)| *value).collect::<Vec<_>>();
    assert_eq!(values, vec![10, 20, 21, 30]);

    let chunks = batches(&values, 3);
    assert_eq!(chunks, vec![vec![10, 20, 21], vec![30]]);
    assert_eq!(batches(&values, 2), vec![vec![10, 20], vec![21, 30]]);
    assert!(batches::<u32>(&vec![], 5).is_empty());

    let clients = vec![identity(1), identity(2)];
    assert!(identities_match(&clients, &vec![identity(1), identity(2), identity(9)]));
    assert!(!identities_match(&clients, &vec![identity(1), identity(3)]));
}
