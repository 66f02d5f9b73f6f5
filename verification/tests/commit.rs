use carbon::account::{Entry, Operation};
use carbon::commit::batch_completion::contains_id;
use carbon::commit::{
    BatchCompletionAggregator, BatchCompletionError, BatchCompletionShard,
    BatchCompletionShardError, Completion, CompletionProof, CompletionProofError, ExtractError,
    InclusionProof, Payload, WitnessedBatch, WitnessedBatchError,
};
use carbon::crypto::{Certificate, Digest, Identity, MultiSignature};
use carbon::discovery::client::ClientState;
use carbon::view::View;

fn identity(byte: u8) -> Identity {
    Identity::new([byte; 32])
}

fn signature(byte: u8) -> MultiSignature {
    MultiSignature { bytes: [byte; 96] }
}

fn view() -> View {
    let members = (1..=4).map(identity).collect::<Vec<_>>();
    View::new(Digest::new([9; 32]), 7, members, 2, 3)
}

fn payload(id: u64) -> Payload {
    Payload::new(Entry { id, height: 1 }, Operation::withdraw(id, 0, 5))
}

#[test]
fn payload_accessors() {
    let withdrawal = Entry { id: 3, height: 8 };
    let payload = Payload::new(withdrawal, Operation::withdraw(3, 7, 100));
    assert_eq!(payload.id(), 3);
    assert_eq!(payload.height(), 8);
    assert_eq!(payload.entry(), withdrawal);
    assert_eq!(*payload.operation(), Operation::Withdraw { beneficiary: 3, slot: 7, amount: 100 });
    assert_eq!(payload.dependency(), None);
    let deposit = Payload::new(Entry { id: 4, height: 2 }, Operation::deposit(withdrawal, 100));
    assert_eq!(deposit.dependency(), Some(withdrawal));
    let prepare = payload.prepare(Digest::new([6; 32]));
    assert_eq!(prepare.entry(), withdrawal);
    assert_eq!(prepare.commitment().bytes, [6; 32]);
}

#[test]
fn shard_exceptions_must_be_in_the_batch() {
    let payloads = vec![payload(2), payload(5), payload(9)];
    assert!(contains_id(&payloads, 5));
    assert!(!contains_id(&payloads, 6));
    let shard = BatchCompletionShard::new(&vec![9, 2, 9], signature(1));
    assert_eq!(shard.exceptions().len(), 2);
    assert_eq!(shard.validate(&payloads, true), Ok(()));
    assert_eq!(shard.validate(&payloads, false), Err(BatchCompletionShardError::SignatureInvalid));
    let foreign = BatchCompletionShard::new(&vec![2, 4], signature(1));
    assert_eq!(foreign.validate(&payloads, true), Err(BatchCompletionShardError::ForeignException));
}

#[test]
fn completion_needs_a_quorum_of_one_exception_set() {
    let root = Digest::new([3; 32]);
    let mut aggregator = BatchCompletionAggregator::new(view(), root);
    aggregator.add(identity(1), BatchCompletionShard::new(&vec![5], signature(1)));
    aggregator.add(identity(2), BatchCompletionShard::new(&vec![], signature(2)));
    aggregator.add(identity(3), BatchCompletionShard::new(&vec![5], signature(3)));
    assert!(!aggregator.complete());
    // A second share from the same member does not count twice.
    aggregator.add(identity(1), BatchCompletionShard::new(&vec![5], signature(4)));
    assert!(!aggregator.complete());
    aggregator.add(identity(4), BatchCompletionShard::new(&vec![5], signature(5)));
    assert!(aggregator.complete());
    assert_eq!(aggregator.completed().unwrap().multiplicity(), 3);

    let completion = aggregator.finalize(signature(7));
    assert!(completion.excepts(5));
    assert!(!completion.excepts(6));
    assert_eq!(completion.root().bytes, [3; 32]);

    let discovery = ClientState::new(view());
    assert_eq!(completion.validate(&discovery, true), Ok(()));
    assert_eq!(completion.validate(&discovery, false), Err(BatchCompletionError::CertificateInvalid));
    let stranger = ClientState::new(View::new(Digest::new([8; 32]), 1, vec![], 1, 1));
    assert_eq!(completion.validate(&stranger, true), Err(BatchCompletionError::ViewUnknown));

    let proof = CompletionProof::new(completion, InclusionProof { bytes: vec![] });
    assert_eq!(proof.validate(&discovery, true, true), Ok(()));
    assert_eq!(proof.validate(&discovery, true, false), Err(CompletionProofError::InclusionInvalid));
    assert_eq!(proof.validate(&stranger, true, true), Err(CompletionProofError::BatchCompletionInvalid));
    let completion = Completion::new(proof, payload(5));
    assert_eq!(completion.validate(&discovery, true, true), Ok(()));
}

#[test]
fn witnessed_batches_need_a_plurality() {
    let view = view();
    let discovery = ClientState::new(view.clone());
    let witness = Certificate::aggregate(&view, &vec![identity(1), identity(3)], signature(2));
    let batch = WitnessedBatch::new(
        view.identifier(),
        Digest::new([4; 32]),
        vec![payload(1), payload(2)],
        witness,
    );
    assert_eq!(batch.payloads().len(), 2);
    assert_eq!(batch.validate(&discovery, true), Ok(()));
    assert_eq!(batch.validate(&discovery, false), Err(WitnessedBatchError::CertificateInvalid));

    let extract = batch.extract(1, InclusionProof { bytes: vec![1, 2] });
    assert_eq!(extract.id(), 2);
    assert_eq!(extract.height(), 1);
    assert_eq!(extract.validate(&discovery, true, true), Ok(()));
    assert_eq!(extract.validate(&discovery, true, false), Err(ExtractError::InclusionProofInvalid));
    assert_eq!(extract.validate(&discovery, false, true), Err(ExtractError::WitnessInvalid));

    let lonely = Certificate::aggregate(&view, &vec![identity(4)], signature(2));
    let weak = WitnessedBatch::new(view.identifier(), Digest::new([4; 32]), vec![payload(1)], lonely);
    assert_eq!(weak.validate(&discovery, true), Err(WitnessedBatchError::CertificateInvalid));
    let other = ClientState::new(View::new(Digest::new([8; 32]), 1, vec![], 1, 1));
    assert_eq!(batch.validate(&other, true), Err(WitnessedBatchError::ViewUnknown));
    assert_eq!(extract.validate(&other, true, true), Err(ExtractError::ViewUnknown));
}
