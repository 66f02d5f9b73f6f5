use carbon::crypto::Digest;
use carbon::discovery::client::{AcquireError, ClientState, ListenError, Received};
use carbon::discovery::server::{
    answer_within_subscription, gap_installs, light_update, route, serve_publish, update, ServeError,
    Service, UpdateError, UpdateOutcome,
};
use carbon::discovery::{Database, Frame, Request, Response, ServerSettings};
use carbon::view::{Install, View};

fn digest(height: usize) -> Digest {
    Digest::new([height as u8; 32])
}

fn view(height: usize) -> View {
    View::new(digest(height), height, vec![], 1, 1)
}

fn install(source: usize, destination: usize, tailless: bool) -> Install {
    let mut identifier = [200u8; 32];
    identifier[0] = source as u8;
    identifier[1] = destination as u8;
    Install {
        identifier: Digest::new(identifier),
        source: digest(source),
        source_height: source,
        destination: digest(destination),
        destination_height: destination,
        tailless,
    }
}

#[test]
fn server_update_acquires_each_install_once() {
    let genesis = view(10);
    let mut frame = Frame::genesis(&genesis);
    let mut database = Database::new(genesis);

    let first = install(10, 12, true);
    assert_eq!(
        update(&mut database, &mut frame, first, view(12)),
        Ok(UpdateOutcome { fresh: true, frame_updated: true })
    );
    assert_eq!(frame.top(), 12);
    assert!(database.view(&digest(12)).is_some());

    // Publishing it again changes nothing.
    assert_eq!(
        update(&mut database, &mut frame, first, view(12)),
        Ok(UpdateOutcome { fresh: false, frame_updated: false })
    );

    // An install from an unknown view is refused.
    assert_eq!(
        update(&mut database, &mut frame, install(13, 14, true), view(14)),
        Err(UpdateError::UnknownSource)
    );

    // A new install that neither grows nor improves the frame is still recorded.
    assert_eq!(
        update(&mut database, &mut frame, install(10, 11, false), view(11)),
        Ok(UpdateOutcome { fresh: true, frame_updated: false })
    );
    assert!(database.view(&digest(11)).is_some());
    assert_eq!(frame.top(), 12);
}

#[test]
fn full_subscription_sends_gaps_by_source_height() {
    let genesis = view(10);
    let mut frame = Frame::genesis(&genesis);
    let mut database = Database::new(genesis);
    let a = install(10, 11, true);
    let b = install(11, 13, true);
    let c = install(10, 12, false);
    for (step, destination) in [(a, 11), (b, 13), (c, 12)] {
        update(&mut database, &mut frame, step, view(destination)).unwrap();
    }
    let gaps = vec![b.identifier, c.identifier, a.identifier];
    let installs = gap_installs(&database, &gaps);
    let heights = installs.iter().map(|install| install.source_height).collect::<Vec<_>>();
    assert_eq!(heights, vec![10, 10, 11]);
    // Installs from the same height keep the order of the gaps.
    assert_eq!(installs[0].identifier.bytes, c.identifier.bytes);
    assert_eq!(installs[1].identifier.bytes, a.identifier.bytes);
    assert_eq!(installs[2].destination_height, 13);
}

#[test]
fn client_acquires_until_an_unknown_source() {
    let mut client = ClientState::new(view(8));
    let update = vec![
        Received { install: install(8, 10, true), destination: view(10), hash: digest(100) },
        Received { install: install(8, 9, true), destination: view(9), hash: digest(101) },
        Received { install: install(10, 12, true), destination: view(12), hash: digest(102) },
    ];
    let (raised, outcome) = client.acquire(update);
    assert_eq!(outcome, Ok(()));
    assert_eq!(raised.len(), 2);
    assert_eq!(raised[0].destination_height, 10);
    assert_eq!(raised[1].destination_height, 12);
    assert_eq!(client.top, 12);
    assert!(client.view(&digest(9)).is_some());
    assert_eq!(client.install(&digest(101)).unwrap().destination_height, 9);

    let update = vec![
        Received { install: install(12, 14, true), destination: view(14), hash: digest(103) },
        Received { install: install(20, 21, true), destination: view(21), hash: digest(104) },
        Received { install: install(14, 16, true), destination: view(16), hash: digest(105) },
    ];
    let (raised, outcome) = client.acquire(update);
    assert_eq!(outcome, Err(AcquireError::InvalidInstall));
    // The transition raised before the unknown install is still announced.
    assert_eq!(raised.len(), 1);
    assert_eq!(raised[0].destination_height, 14);
    assert_eq!(client.top, 14);
    assert!(client.view(&digest(14)).is_some());
    assert!(client.view(&digest(16)).is_none());
}

#[test]
fn server_settings_default() {
    let settings = ServerSettings::default();
    assert_eq!(settings.install_channel_capacity, 32);
    assert_eq!(settings.update_channel_capacity, 32);
}

#[test]
fn simple_server_accepts_installs_from_known_views() {
    let mut views: carbon::data::Table<View> = carbon::data::Table::new();
    views.insert(digest(3), view(3));
    assert_eq!(carbon::discovery::server::accept_publish(&mut views, install(3, 5, true), view(5)), Ok(()));
    assert!(views.contains_key(&digest(5)));
    assert_eq!(
        carbon::discovery::server::accept_publish(&mut views, install(4, 6, true), view(6)),
        Err(carbon::discovery::server::PublishError::UnknownView)
    );
    assert!(!views.contains_key(&digest(6)));
}

#[test]
fn requests_open_services() {
    assert!(matches!(route(Request::LightSubscribe(12)), Ok(Service::LightSubscribe(12))));
    assert!(matches!(route(Request::FullSubscribe), Ok(Service::FullSubscribe)));
    match route(Request::Publish(install(3, 5, true))) {
        Ok(Service::Publish(published)) => assert_eq!(published.destination_height, 5),
        _ => panic!("a publication opens the publish service"),
    }
    assert!(matches!(route(Request::KeepAlive), Err(ServeError::UnexpectedRequest)));
    if (usize::MAX as u64) < u64::MAX {
        assert!(matches!(route(Request::LightSubscribe(u64::MAX)), Err(ServeError::HeightOverflow)));
    }
    assert!(matches!(answer_within_subscription(Request::KeepAlive), Ok(Response::KeepAlive)));
    assert!(matches!(
        answer_within_subscription(Request::FullSubscribe),
        Err(ServeError::UnexpectedRequest)
    ));
}

#[test]
fn light_subscribers_reach_the_top() {
    let genesis = view(10);
    let frame = Frame::genesis(&genesis);
    let frame = frame.update(install(10, 12, true)).unwrap();
    let frame = frame.update(install(12, 15, false)).unwrap();
    let (installs, height) = light_update(&frame, 11);
    assert_eq!(installs.len(), 2);
    assert_eq!(height, 15);
    let (installs, height) = light_update(&frame, 13);
    assert_eq!(installs.len(), 1);
    assert_eq!(installs[0].source_height, 12);
    assert_eq!(height, 15);
    let (installs, _) = light_update(&frame, 20);
    assert!(installs.is_empty());
}

#[test]
fn publications_are_acknowledged_once_acquired() {
    let genesis = view(10);
    let mut frame = Frame::genesis(&genesis);
    let mut database = Database::new(genesis);
    match serve_publish(&mut database, &mut frame, install(10, 11, true), view(11)) {
        Ok((outcome, Response::AcknowledgePublish)) => {
            assert_eq!(outcome, UpdateOutcome { fresh: true, frame_updated: true })
        }
        _ => panic!("a publication from a known view is acknowledged"),
    }
    assert!(matches!(
        serve_publish(&mut database, &mut frame, install(30, 31, true), view(31)),
        Err(ServeError::UpdateFailed)
    ));
    assert_eq!(frame.top(), 11);
}

#[test]
fn clients_handle_responses() {
    let mut client = ClientState::new(view(8));
    let installs = vec![install(8, 10, true)];
    let update = vec![Received { install: installs[0], destination: view(10), hash: digest(100) }];
    let (raised, outcome) = client.receive(&Response::Update(installs), update);
    assert_eq!(outcome, Ok(()));
    assert_eq!(raised.len(), 1);
    assert_eq!(client.top, 10);

    let (raised, outcome) = client.receive(&Response::KeepAlive, vec![]);
    assert!(raised.is_empty() && outcome.is_ok());
    assert_eq!(client.top, 10);
    assert_eq!(
        client.receive(&Response::AcknowledgePublish, vec![]).1,
        Err(ListenError::UnexpectedResponse)
    );

    let installs = vec![install(40, 41, true)];
    let update = vec![Received { install: installs[0], destination: view(41), hash: digest(101) }];
    assert_eq!(client.receive(&Response::Update(installs), update).1, Err(ListenError::AcquireError));
    assert_eq!(client.top, 10);
}
