use carbon::crypto::Digest;
use carbon::discovery::Frame;
use carbon::view::{Install, View};

fn digest(height: usize) -> Digest {
    let mut bytes = [0u8; 32];
    bytes[0] = (height % 256) as u8;
    bytes[1] = (height / 256) as u8;
    Digest::new(bytes)
}

fn view(height: usize) -> View {
    View::new(digest(height), height, Vec::new(), 1, 1)
}

/// The install from `source` to `destination`, carrying `tail` further increments.
fn install(source: usize, destination: usize, tail: &[usize]) -> Install {
    let mut identifier = [7u8; 32];
    identifier[0] = source as u8;
    identifier[1] = destination as u8;
    identifier[2] = tail.len() as u8;
    Install {
        identifier: Digest::new(identifier),
        source: digest(source),
        source_height: source,
        destination: digest(destination),
        destination_height: destination,
        tailless: tail.is_empty(),
    }
}

fn setup(genesis: usize) -> (View, Frame) {
    let genesis = view(genesis);
    let frame = Frame::genesis(&genesis);
    (genesis, frame)
}

fn check_lookup(frame: &Frame, genesis: &View, expected: &[usize]) {
    for (index, expected) in expected.iter().enumerate() {
        assert_eq!(frame.start(genesis.height() + index), *expected);
    }
}

/// A client that applies the installs it is sent, from its last installable view.
struct Client {
    last_installable: usize,
    current: usize,
}

impl Client {
    fn update(&mut self, installs: Vec<Install>) {
        self.current = self.last_installable;
        for install in installs {
            assert_eq!(self.current, install.source_height);
            self.current = install.destination_height;
            if install.tailless {
                self.last_installable = self.current;
            }
        }
    }
}

fn check_frame(frame: &Frame, genesis_height: usize, added_views: usize, installable: &[usize]) {
    let mut installable = installable.iter().peekable();
    let mut last_installable = genesis_height;
    for base in genesis_height..added_views {
        if installable.peek().is_some() && base == **installable.peek().unwrap() {
            last_installable = *installable.next().unwrap();
        }
        let mut client = Client { last_installable, current: base };
        let installs = frame.lookup(base);
        client.update(installs);

        assert_eq!(client.current, frame.top());
        assert_eq!(client.last_installable, frame.lookup(frame.top() - 1).remove(0).source_height);
    }
}

#[test]
fn develop() {
    let (genesis, frame) = setup(10);

    let f0 = frame.update(install(10, 15, &[16])).unwrap();
    let f1 = f0.update(install(15, 20, &[21])).unwrap();
    let f2 = f1.update(install(20, 25, &[])).unwrap();
    let f3 = f2.update(install(25, 30, &[31])).unwrap();
    let f4 = f3.update(install(30, 35, &[])).unwrap();
    let f5 = f4.update(install(35, 40, &[])).unwrap();

    let expected = &[
        0, 0, 0, 0, 0, 0, 0, 0, 0, 0, 0, 0, 0, 0, 0, 3, 3, 3, 3, 3, 3, 3, 3, 3, 3, 5, 5, 5, 5,
        5,
    ];

    check_lookup(&f5, &genesis, expected);
}

#[test]
fn all_tailless() {
    let (genesis, mut frame) = setup(10);

    for i in 10..20 {
        frame = frame.update(install(i, i + 1, &[])).unwrap();
    }

    let expected = &[0, 1, 2, 3, 4, 5, 6, 7, 8, 9];

    check_lookup(&frame, &genesis, expected);
    check_frame(&frame, 10, 10, &(10..20).collect::<Vec<_>>());
}

#[test]
fn no_tailless() {
    let (genesis, mut frame) = setup(10);

    for i in 10..20 {
        frame = frame.update(install(i, i + 1, &[i + 2])).unwrap();
    }

    let expected = &[0, 0, 0, 0, 0, 0, 0, 0, 0, 0];

    check_lookup(&frame, &genesis, expected);
    check_frame(&frame, 10, 10, &[]);
}

#[test]
fn new_tailless() {
    let (genesis, mut frame) = setup(10);

    for i in 10..20 {
        frame = frame.update(install(i, i + 1, &[i + 2])).unwrap();
    }

    let expected = &[0, 0, 0, 0, 0, 0, 0, 0, 0, 0];

    check_lookup(&frame, &genesis, expected);
    check_frame(&frame, 10, 11, &[]);

    for i in [15, 17] {
        frame = frame.update(install(i - 1, i, &[])).unwrap();
    }

    let expected = &[0, 0, 0, 0, 0, 5, 5, 7, 7, 7];

    check_lookup(&frame, &genesis, expected);
    check_frame(&frame, 10, 11, &[15, 17]);
}

#[test]
fn shortcut_tailless() {
    let (genesis, mut frame) = setup(10);

    frame = frame.update(install(10, 11, &[12, 13])).unwrap();
    frame = frame.update(install(11, 12, &[13])).unwrap();
    frame = frame.update(install(12, 13, &[])).unwrap();
    frame = frame.update(install(13, 14, &[15])).unwrap();

    let expected = &[0, 0, 0, 3];

    check_lookup(&frame, &genesis, expected);
    check_frame(&frame, 10, 11, &[13]);

    frame = frame.update(install(10, 12, &[])).unwrap();

    let expected = &[0, 0, 1, 2];

    check_lookup(&frame, &genesis, expected);
    check_frame(&frame, 10, 11, &[12, 13]);
}

#[test]
fn shortcut_tails() {
    let (genesis, mut frame) = setup(10);

    frame = frame.update(install(10, 11, &[12, 13])).unwrap();
    frame = frame.update(install(11, 12, &[13])).unwrap();
    frame = frame.update(install(12, 13, &[])).unwrap();
    frame = frame.update(install(13, 14, &[15])).unwrap();

    let expected = &[0, 0, 0, 3];

    check_lookup(&frame, &genesis, expected);
    check_frame(&frame, 10, 11, &[13]);

    frame = frame.update(install(10, 12, &[13])).unwrap();

    let expected = &[0, 0, 0, 2];

    check_lookup(&frame, &genesis, expected);
    check_frame(&frame, 10, 11, &[13]);
}

#[test]
fn frame_refuses_useless_install() {
    let (_, mut frame) = setup(10);
    frame = frame.update(install(10, 12, &[])).unwrap();
    // Same heights, not better: refused.
    assert!(frame.update(install(10, 12, &[])).is_none());
    // Shorter reach from the same source, not tailless: refused.
    assert!(frame.update(install(10, 11, &[12])).is_none());
    // Longer reach: accepted, and the top follows.
    let grown = frame.update(install(12, 15, &[])).unwrap();
    assert_eq!(grown.top(), 15);
}

#[test]
fn frame_lookup_clamps_heights() {
    let (_, mut frame) = setup(10);
    assert_eq!(frame.top(), 10);
    assert!(frame.lookup(3).is_empty());
    frame = frame.update(install(10, 12, &[13])).unwrap();
    frame = frame.update(install(12, 14, &[])).unwrap();
    // Below the base: as at the base.
    let below = frame.lookup(3);
    assert_eq!(below.len(), 2);
    assert_eq!(below[0].source_height, 10);
    // At or above the top: nothing to apply.
    assert!(frame.lookup(14).is_empty());
    assert!(frame.lookup(100).is_empty());
    // Between: from the start, since the only tailless install reaches the top.
    assert_eq!(frame.lookup(13).len(), 2);
    assert_eq!(frame.lookup(13).last().unwrap().destination_height, 14);
}
