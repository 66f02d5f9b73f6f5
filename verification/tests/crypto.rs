use carbon::crypto::aggregator::MultiError;
use carbon::crypto::{
    Aggregator, Certificate, CertificateError, Digest, Identity, MultiSignature, Rogue, RogueError,
    Signature,
};
use carbon::view::View;

fn identity(byte: u8) -> Identity {
    Identity::new([byte; 32])
}

fn signature(byte: u8) -> MultiSignature {
    MultiSignature { bytes: [byte; 96] }
}

fn view_of(size: u8) -> View {
    let members = (1..=size).map(identity).collect::<Vec<_>>();
    View::new(Digest::new([9; 32]), 7, members, 2, 3)
}

#[test]
fn certificate_marks_its_signers() {
    let view = view_of(4);
    let certificate = Certificate::aggregate(&view, &vec![identity(3), identity(1)], signature(5));
    assert_eq!(certificate.power(), 2);
    let signers = certificate.signers(&view);
    assert_eq!(signers.len(), 2);
    assert_eq!(signers[0].hash.bytes, [1; 32]);
    assert_eq!(signers[1].hash.bytes, [3; 32]);
    assert_eq!(certificate.signature().bytes, [5; 96]);
}

#[test]
fn certificate_thresholds() {
    let view = view_of(4);
    let plurality = Certificate::aggregate_plurality(&view, &vec![identity(2), identity(4)], signature(1));
    assert_eq!(plurality.verify_plurality(&view, true), Ok(()));
    assert_eq!(plurality.verify_quorum(&view, true), Err(CertificateError::NotEnoughSigners));
    assert_eq!(plurality.verify_plurality(&view, false), Err(CertificateError::CertificateInvalid));
    let quorum = Certificate::aggregate_quorum(&view, &vec![identity(1), identity(2), identity(4)], signature(1));
    assert_eq!(quorum.verify_quorum(&view, true), Ok(()));
    assert_eq!(quorum.verify_threshold(4, true), Err(CertificateError::NotEnoughSigners));
    assert_eq!(quorum.verify_raw(false), Err(CertificateError::CertificateInvalid));
}

#[test]
fn distinct_power_counts_disjoint_signers() {
    let view = view_of(5);
    let a = Certificate::aggregate(&view, &vec![identity(1), identity(2)], signature(1));
    let b = Certificate::aggregate(&view, &vec![identity(4)], signature(2));
    let c = Certificate::aggregate(&view, &vec![identity(2), identity(5)], signature(3));
    assert_eq!(Certificate::distinct_power(&vec![]), Ok(0));
    assert_eq!(Certificate::distinct_power(&vec![a.clone()]), Ok(2));
    assert_eq!(Certificate::distinct_power(&vec![a.clone(), b.clone()]), Ok(3));
    assert_eq!(
        Certificate::distinct_power(&vec![a.clone(), b, c.clone()]),
        Err(CertificateError::OverlappingSigners)
    );
    // An overlap found before a certificate of another view decides the outcome.
    let foreign = Certificate::aggregate(&view_of(3), &vec![identity(3)], signature(4));
    assert_eq!(
        Certificate::distinct_power(&vec![a, c, foreign]),
        Err(CertificateError::OverlappingSigners)
    );
}

#[test]
fn aggregator_keeps_one_share_per_member() {
    let view = view_of(4);
    let mut aggregator = Aggregator::new(view, 17u32);
    assert_eq!(aggregator.add(identity(1), signature(1), true), Ok(()));
    assert_eq!(aggregator.add(identity(2), signature(2), false), Err(MultiError::InvalidSignature));
    assert_eq!(aggregator.multiplicity(), 1);
    assert_eq!(aggregator.add_unchecked(identity(1), signature(3)), Ok(()));
    assert_eq!(aggregator.multiplicity(), 1);
    assert_eq!(aggregator.components()[0].1.bytes, [3; 96]);
    assert_eq!(aggregator.add_unchecked(identity(3), signature(4)), Ok(()));
    assert_eq!(aggregator.multiplicity(), 2);
    assert_eq!(aggregator.check(identity(4), false), Err(MultiError::InvalidSignature));
    assert_eq!(*aggregator.statement(), 17);
    let (statement, certificate) = aggregator.finalize_plurality(signature(9));
    assert_eq!(statement, 17);
    assert_eq!(certificate.power(), 2);
}

#[test]
fn digests_compare_bytewise() {
    let a = Digest::new([1; 32]);
    let mut bytes = [1; 32];
    bytes[31] = 2;
    let b = Digest::new(bytes);
    assert!(a.equals(&a));
    assert!(!a.equals(&b));
    assert!(identity(4).equals(&identity(4)));
}

#[test]
fn rogue_checks_signature_then_multi_signature() {
    let rogue = Rogue::new(Signature { bytes: [1; 64] }, signature(2));
    assert_eq!(rogue.validate(true, true), Ok(()));
    assert_eq!(rogue.validate(false, true), Err(RogueError::InvalidSignature));
    assert_eq!(rogue.validate(false, false), Err(RogueError::InvalidSignature));
    assert_eq!(rogue.validate(true, false), Err(RogueError::InvalidMultiSignature));
}
