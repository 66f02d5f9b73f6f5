use carbon::account::{Entry, Operation};
use carbon::executables::config::Parameters as ReplicaProgramParameters;
use carbon::crypto::{Digest, Signature};
use carbon::external::client::{
    batch_interval, choose_address, mini_batches, parse_ipv4, prepare_requests, shared_prepare, withdrawal,
    withdrawals,
};
use carbon::external::{BrokerParameters, Parameters, ReplicaParameters};

#[test]
fn broker_parameters_default() {
    let parameters = BrokerParameters::default();
    assert_eq!(parameters.signup_batch_number, 10);
    assert_eq!(parameters.signup_batch_size, 5_000);
    assert_eq!(Parameters::default().broker, parameters);
    assert_eq!(ReplicaParameters::default(), ReplicaParameters {});
    assert_eq!(ReplicaProgramParameters::default(), ReplicaProgramParameters {});
}

#[test]
fn benchmark_withdrawals() {
    let payload = withdrawal(7, 3);
    assert_eq!(payload.entry(), Entry { id: 7, height: 3 });
    assert_eq!(*payload.operation(), Operation::Withdraw { beneficiary: 7, slot: 2, amount: 0 });

    let payloads = withdrawals(&vec![4, 5], 9);
    assert_eq!(payloads.len(), 2);
    assert_eq!(payloads[1].entry(), Entry { id: 5, height: 10 });
    assert_eq!(*payloads[1].operation(), Operation::Withdraw { beneficiary: 5, slot: 9, amount: 0 });
}

#[test]
fn preferred_broker_address() {
    let ips = vec![Some(1), None, Some(3), Some(3)];
    assert_eq!(choose_address(&ips, Some(3)), 2);
    assert_eq!(choose_address(&ips, Some(9)), 0);
    assert_eq!(choose_address(&ips, None), 0);
}

#[test]
fn pause_between_batches() {
    assert_eq!(batch_interval(500, 1000), 500);
    assert_eq!(batch_interval(7, 3), 2333);
}

#[test]
fn batches_split_evenly_among_streams() {
    let batch: Vec<u32> = (1..=10).collect();
    let chunks = mini_batches(&batch, 3);
    assert_eq!(chunks, vec![vec![1, 2, 3], vec![4, 5, 6], vec![7, 8, 9]]);
    let chunks = mini_batches(&batch, 2);
    assert_eq!(chunks, vec![vec![1, 2, 3, 4, 5], vec![6, 7, 8, 9, 10]]);
    let chunks = mini_batches(&batch, 10);
    assert_eq!(chunks.len(), 10);
    assert_eq!(chunks[9], vec![10]);
}

#[test]
fn prepare_requests_share_one_signature() {
    let signature = Signature { bytes: [7; 64] };
    let commitments = vec![Digest::new([1; 32]), Digest::new([2; 32])];
    let requests = prepare_requests(4, &vec![10, 11], &commitments, signature);
    assert_eq!(requests.len(), 2);
    assert_eq!(requests[1].assignment, 11);
    assert_eq!(requests[1].prepare.entry, Entry { id: 11, height: 5 });
    assert_eq!(requests[1].prepare.commitment.bytes, [2; 32]);
    assert_eq!(requests[0].signature.bytes, requests[1].signature.bytes);
    let signed = shared_prepare(10, 4, Digest::new([0; 32]));
    assert_eq!(signed.entry, Entry { id: 10, height: 4 });
}

#[test]
fn broker_addresses_parse_as_dotted_octets() {
    assert_eq!(parse_ipv4(b"10.0.0.1"), Some(0x0A00_0001));
    assert_eq!(parse_ipv4(b"127.0.0.1"), Some(0x7F00_0001));
    assert_eq!(parse_ipv4(b"255.255.255.255"), Some(u32::MAX));
    assert_eq!(parse_ipv4(b"0.0.0.0"), Some(0));
    assert_eq!(parse_ipv4(b"192.168.1.20"), Some(0xC0A8_0114));
    for bad in [
        &b"256.1.1.1"[..],
        b"01.2.3.4",
        b"1.2.3",
        b"1.2.3.4.",
        b"1..3.4",
        b"1234.1.1.1",
        b"",
        b"a.b.c.d",
        b" 1.2.3.4",
        b"1.2.3.4.5",
    ] {
        assert_eq!(parse_ipv4(bad), None);
    }
    let ips = vec![parse_ipv4(b"10.0.0.1"), parse_ipv4(b"10.0.0.2")];
    assert_eq!(choose_address(&ips, parse_ipv4(b"10.0.0.2")), 1);
}
