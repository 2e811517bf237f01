use core_network::clock::current_timestamp;
use core_network::network::{Health, Network, NetworkExternalActions, PeerOrigin};
use libp2p::PeerId;
use std::cell::Cell;
use std::rc::Rc;

/// A quality given as a fraction, in thousandths.
fn thousandths(quality: f64) -> u64 {
    (quality * 1000.0).round() as u64
}

struct DummyNetworkAction {}

impl NetworkExternalActions for DummyNetworkAction {
    fn is_public(&self, _: &PeerId) -> bool {
        false
    }

    fn close_connection(&self, _: &PeerId) {}

    fn on_peer_offline(&self, _: &PeerId) {}

    fn on_network_health_change(&self, _: Health, _: Health) {}
}

#[derive(Default)]
struct Calls {
    is_public: Cell<usize>,
    close_connection: Cell<usize>,
    on_peer_offline: Cell<usize>,
    on_network_health_change: Cell<usize>,
}

/// Counts the calls and tells of the peers in `public` that they are public.
struct CountingNetworkAction {
    public: Vec<PeerId>,
    calls: Rc<Calls>,
}

impl CountingNetworkAction {
    fn new(public: Vec<PeerId>) -> (CountingNetworkAction, Rc<Calls>) {
        let calls = Rc::new(Calls::default());
        (CountingNetworkAction { public, calls: calls.clone() }, calls)
    }
}

impl NetworkExternalActions for CountingNetworkAction {
    fn is_public(&self, peer: &PeerId) -> bool {
        self.calls.is_public.set(self.calls.is_public.get() + 1);
        self.public.contains(peer)
    }

    fn close_connection(&self, _: &PeerId) {
        self.calls.close_connection.set(self.calls.close_connection.get() + 1);
    }

    fn on_peer_offline(&self, _: &PeerId) {
        self.calls.on_peer_offline.set(self.calls.on_peer_offline.get() + 1);
    }

    fn on_network_health_change(&self, _: Health, _: Health) {
        self.calls.on_network_health_change.set(self.calls.on_network_health_change.get() + 1);
    }
}

fn basic_network(my_id: &PeerId) -> Network {
    Network::new(*my_id, thousandths(0.6), Box::new(DummyNetworkAction {}))
}

#[test]
fn test_network_health_should_be_ordered_numerically_for_metrics_output() {
    assert_eq!(Health::UNKNOWN as i32, 0);
    assert_eq!(Health::RED as i32, 1);
    assert_eq!(Health::ORANGE as i32, 2);
    assert_eq!(Health::YELLOW as i32, 3);
    assert_eq!(Health::GREEN as i32, 4);
}

#[test]
fn test_network_should_not_contain_the_self_reference() {
    let me = PeerId::random();

    let mut peers = basic_network(&me);

    peers.add(&me, PeerOrigin::IncomingConnection);

    assert_eq!(0, peers.length());
    assert!(!peers.has(&me))
}

#[test]
fn test_network_should_contain_a_registered_peer() {
    let expected = PeerId::random();

    let mut peers = basic_network(&PeerId::random());

    peers.add(&expected, PeerOrigin::IncomingConnection);

    assert_eq!(1, peers.length());
    assert!(peers.has(&expected))
}

#[test]
fn test_network_should_remove_a_peer_on_unregistration() {
    let peer = PeerId::random();

    let mut peers = basic_network(&PeerId::random());

    peers.add(&peer, PeerOrigin::IncomingConnection);

    peers.remove(&peer);

    assert_eq!(0, peers.length());
    assert!(!peers.has(&peer))
}

#[test]
fn test_network_should_ingore_heartbeat_updates_for_peers_that_were_not_registered() {
    let peer = PeerId::random();

    let mut peers = basic_network(&PeerId::random());

    peers.update(&peer, Ok(current_timestamp()));

    assert_eq!(0, peers.length());
    assert!(!peers.has(&peer))
}

#[test]
fn test_network_should_be_able_to_register_a_succeeded_heartbeat_result() {
    let peer = PeerId::random();

    let mut peers = basic_network(&PeerId::random());

    peers.add(&peer, PeerOrigin::IncomingConnection);

    let ts = current_timestamp();

    peers.update(&peer, Ok(ts));

    let actual = peers.debug_output();

    assert!(actual.contains("heartbeats sent=1"));
    assert!(actual.contains("heartbeats succeeded=1"));
    assert!(actual.contains(format!("last seen on={}", ts).as_str()))
}

#[test]
fn test_network_should_ignore_a_peer_that_has_reached_lower_thresholds_a_specified_amount_of_time() {
    let peer = PeerId::random();

    let mut peers = basic_network(&PeerId::random());

    peers.add(&peer, PeerOrigin::IncomingConnection);

    peers.update(&peer, Ok(current_timestamp()));
    peers.update(&peer, Ok(current_timestamp()));
    peers.update(&peer, Err(()));  // should drop to ignored
    peers.update(&peer, Err(()));  // should drop from network

    assert!(!peers.has(&peer));

    // peer should remain ignored and not be added
    peers.add(&peer, PeerOrigin::IncomingConnection);

    assert!(!peers.has(&peer))
}

#[test]
fn test_network_should_be_able_to_register_a_failed_heartbeat_result() {
    let peer = PeerId::random();
    let mut peers = basic_network(&PeerId::random());

    peers.add(&peer, PeerOrigin::IncomingConnection);

    peers.update(&peer, Ok(current_timestamp()));
    peers.update(&peer, Ok(current_timestamp()));
    peers.update(&peer, Err(()));

    let actual = peers.debug_output();

    assert!(actual.contains("heartbeats succeeded=2"));
    assert!(actual.contains("backoff=300"));
}

#[test]
fn test_network_should_be_listed_for_the_ping_if_last_recorded_later_than_reference() {
    let first = PeerId::random();
    let second = PeerId::random();
    let mut peers = basic_network(&PeerId::random());

    peers.add(&first, PeerOrigin::IncomingConnection);
    peers.add(&second, PeerOrigin::IncomingConnection);

    let ts = current_timestamp();

    let mut expected = vec![first, second];
    expected.sort();

    peers.update(&first, Ok(ts));
    peers.update(&second, Ok(ts));

    let mut actual = peers.find_peers_to_ping(ts + 3000);
    actual.sort();

    assert_eq!(actual, expected);
}

#[test]
fn test_network_should_have_no_knowledge_about_health_without_any_registered_peers() {
    let peers = basic_network(&PeerId::random());

    assert_eq!(peers.health(), Health::UNKNOWN);
}

#[test]
fn test_network_should_be_unhealthy_without_any_heartbeat_updates() {
    let peer = PeerId::random();

    let mut peers = basic_network(&PeerId::random());

    peers.add(&peer, PeerOrigin::IncomingConnection);

    assert_eq!(peers.health(), Health::RED);
}

#[test]
fn test_network_should_be_unhealthy_without_any_peers_once_the_health_was_known() {
    let peer = PeerId::random();

    let mut peers = basic_network(&PeerId::random());

    peers.add(&peer, PeerOrigin::IncomingConnection);
    let _ = peers.health();
    peers.remove(&peer);

    assert_eq!(peers.health(), Health::RED);
}

#[test]
fn test_network_should_notify_the_callback_for_every_health_change() {
    let peer = PeerId::random();

    let (mock, calls) = CountingNetworkAction::new(vec![]);

    let mut peers = Network::new(PeerId::random(), thousandths(0.6), Box::new(mock));

    peers.add(&peer, PeerOrigin::IncomingConnection);

    assert_eq!(peers.health(), Health::RED);
    assert_eq!(calls.is_public.get(), 1);
    assert_eq!(calls.on_network_health_change.get(), 1);
}

#[test]
fn test_network_should_be_healthy_when_a_public_peer_is_pingable_with_low_quality() {
    let peer = PeerId::random();
    let public = peer;

    let (mock, calls) = CountingNetworkAction::new(vec![public]);
    let mut peers = Network::new(PeerId::random(), thousandths(0.6), Box::new(mock));

    peers.add(&peer, PeerOrigin::IncomingConnection);

    peers.update(&peer, Ok(current_timestamp()));

    assert_eq!(peers.health(), Health::ORANGE);
    assert_eq!(calls.is_public.get(), 2);
    assert_eq!(calls.on_network_health_change.get(), 1);
}

#[test]
fn test_network_should_remove_the_peer_once_it_reaches_the_lowest_possible_quality() {
    let peer = PeerId::random();
    let public = peer;

    let (mock, calls) = CountingNetworkAction::new(vec![public]);

    let mut peers = Network::new(PeerId::random(), thousandths(0.6), Box::new(mock));

    peers.add(&peer, PeerOrigin::IncomingConnection);

    peers.update(&peer, Ok(current_timestamp()));
    peers.update(&peer, Err(()));

    assert!(!peers.has(&public));
    assert_eq!(calls.is_public.get(), 3);
    assert_eq!(calls.on_network_health_change.get(), 1);
    assert_eq!(calls.close_connection.get(), 1);
}

#[test]
fn test_network_should_be_healthy_when_a_public_peer_is_pingable_with_high_quality_and_i_am_public() {
    let me = PeerId::random();
    let peer = PeerId::random();
    let public = vec![peer, me];

    let (mock, calls) = CountingNetworkAction::new(public);
    let mut peers = Network::new(me, thousandths(0.3), Box::new(mock));

    peers.add(&peer, PeerOrigin::IncomingConnection);

    for _ in 0..3 {
        peers.update(&peer, Ok(current_timestamp()));
    }

    assert_eq!(peers.health(), Health::GREEN);
    assert_eq!(calls.is_public.get(), 5);
    assert_eq!(calls.on_network_health_change.get(), 2);
}

#[test]
fn test_network_should_be_healthy_when_a_public_peer_is_pingable_with_high_quality_and_another_high_quality_non_public() {
    let peer = PeerId::random();
    let peer2 = PeerId::random();
    let public = vec![peer];

    let (mock, calls) = CountingNetworkAction::new(public);
    let mut peers = Network::new(PeerId::random(), thousandths(0.3), Box::new(mock));

    peers.add(&peer, PeerOrigin::IncomingConnection);
    peers.add(&peer2, PeerOrigin::IncomingConnection);

    for _ in 0..3 {
        peers.update(&peer2, Ok(current_timestamp()));
        peers.update(&peer, Ok(current_timestamp()));
    }

    assert_eq!(peers.health(), Health::GREEN);
    assert_eq!(calls.is_public.get(), 8);
    assert_eq!(calls.on_network_health_change.get(), 2);
}
