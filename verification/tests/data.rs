use carbon::crypto::{Digest, Identity};
use carbon::data::ping_board::UNMEASURED;
use carbon::data::{PingBoard, ShiftVec, Sponge, SpongeSettings, Table};
use carbon::view::View;
use carbon::directory::{Directory, DirectoryError};

fn identity(byte: u8) -> Identity {
    Identity::new([byte; 32])
}

#[test]
fn shift_vec_starts_at_offset() {
    let mut vector: ShiftVec<u32> = ShiftVec::new(5);
    assert_eq!(vector.len(), 5);
    vector.push(10);
    vector.push(20);
    assert_eq!(vector.len(), 7);
    assert_eq!(*vector.index(5), 10);
    assert_eq!(*vector.index(6), 20);
    *vector.index_mut(6) = 21;
    assert_eq!(*vector.index(6), 21);
    assert_eq!(*vector.index(5), 10);
}

#[test]
fn table_insert_then_get() {
    let mut table: Table<u32> = Table::new();
    let a = Digest::new([1; 32]);
    let b = Digest::new([2; 32]);
    assert_eq!(table.insert(a, 10), None);
    assert_eq!(table.insert(b, 20), None);
    assert_eq!(table.get(&a), Some(&10));
    assert_eq!(table.insert(a, 11), Some(10));
    assert_eq!(table.get(&a), Some(&11));
    assert_eq!(table.get(&b), Some(&20));
    assert_eq!(table.len(), 2);
    assert!(!table.contains_key(&Digest::new([3; 32])));
}

#[test]
fn manual() {
    let identities = vec![identity(1), identity(2), identity(3), identity(4)];
    let view = View::new(Digest::new([0; 32]), 4, identities.clone(), 2, 3);

    let mut board = PingBoard::new(&view);

    board.submit(identities[2], 3_000_000_000);
    board.submit(identities[0], 1_000_000_000);
    board.submit(identities[1], 2_000_000_000);

    let rankings = board.rankings();
    let rankings = rankings.iter().map(|identity| identity.hash.bytes).collect::<Vec<_>>();
    let expected = identities.iter().map(|identity| identity.hash.bytes).collect::<Vec<_>>();
    assert_eq!(rankings, expected);
}

#[test]
fn ping_board_unmeasured_rank_last() {
    let identities = vec![identity(1), identity(2), identity(3)];
    let view = View::new(Digest::new([0; 32]), 1, identities.clone(), 1, 2);
    let mut board = PingBoard::new(&view);
    board.submit(identities[2], 5);
    let rankings = board.rankings();
    assert_eq!(rankings.len(), 3);
    assert_eq!(rankings[0].hash.bytes, [3; 32]);
    assert_eq!(UNMEASURED, std::time::Duration::MAX.as_nanos());
}

#[test]
fn sponge_releases_full_batches() {
    let mut sponge: Sponge<u32> = Sponge::new(3);
    let first = sponge.push(42);
    assert!(first.start_timer && !first.notify);
    let second = sponge.push(43);
    assert!(!second.start_timer && !second.notify);
    // Not full, not expired: nothing released.
    assert_eq!(sponge.flush(false), None);
    let third = sponge.push(44);
    assert!(third.notify);
    assert_eq!(sponge.flush(false), Some(vec![42, 43, 44]));
    // Empty: nothing released even after the timeout.
    assert_eq!(sponge.flush(true), None);
}

#[test]
fn sponge_releases_on_timeout() {
    let mut sponge: Sponge<u32> = Sponge::new(10);
    for size in 1..5u32 {
        for _ in 0..size {
            sponge.push(42);
        }
        let flushed = sponge.flush(true).unwrap();
        assert_eq!(flushed.len(), size as usize);
    }
}

#[test]
fn sponge_settings_default() {
    let settings = SpongeSettings::default();
    assert_eq!(settings.capacity, 50000);
    assert_eq!(settings.timeout, std::time::Duration::from_secs(1));
}

#[test]
fn directory_caches_cards() {
    let mut directory: Directory<u32> = Directory::new();
    assert_eq!(directory.search(identity(1)), None);
    assert_eq!(directory.resolve(identity(1), None), Err(DirectoryError::CardUnknown));
    assert_eq!(directory.resolve(identity(1), Some((identity(1), 7))), Ok(7));
    assert_eq!(directory.search(identity(1)), Some(&7));
    // A cached card is kept, whatever the service says.
    assert_eq!(directory.resolve(identity(1), Some((identity(1), 8))), Ok(7));
    assert_eq!(directory.search(identity(1)), Some(&7));
    // A fetched card is cached under its own identity.
    assert_eq!(directory.resolve(identity(2), Some((identity(3), 5))), Ok(5));
    assert_eq!(directory.search(identity(3)), Some(&5));
    assert_eq!(directory.search(identity(2)), None);
    directory.store(identity(1), 9);
    assert_eq!(directory.search(identity(1)), Some(&9));
}
