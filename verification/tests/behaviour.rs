use core_network::clock::{current_timestamp, timestamp_of};
use core_network::config::{NetworkConfig, UNIT};
use core_network::fixed::{delay_for, isqrt, raise};
use core_network::health::{assess, Health};
use core_network::network::{Network, NetworkExternalActions, NetworkMetrics};
use core_network::origin::PeerOrigin;
use core_network::status::{judge_failure, FailureVerdict, PeerStatus};
use core_network::text::{decimal_text, fixed_text};
use libp2p::PeerId;
use std::cell::RefCell;
use std::rc::Rc;

#[derive(Debug, Clone, PartialEq)]
enum Call {
    IsPublic(PeerId),
    Close(PeerId),
    Offline(PeerId),
    HealthChange(Health, Health),
}

/// Writes every call down and tells of the peers in `public` that they are public.
struct Recorder {
    public: Vec<PeerId>,
    calls: Rc<RefCell<Vec<Call>>>,
}

impl NetworkExternalActions for Recorder {
    fn is_public(&self, peer: &PeerId) -> bool {
        self.calls.borrow_mut().push(Call::IsPublic(*peer));
        self.public.contains(peer)
    }

    fn close_connection(&self, peer: &PeerId) {
        self.calls.borrow_mut().push(Call::Close(*peer));
    }

    fn on_peer_offline(&self, peer: &PeerId) {
        self.calls.borrow_mut().push(Call::Offline(*peer));
    }

    fn on_network_health_change(&self, old: Health, new: Health) {
        self.calls.borrow_mut().push(Call::HealthChange(old, new));
    }
}

fn network(me: PeerId, threshold: u64, public: Vec<PeerId>) -> (Network, Rc<RefCell<Vec<Call>>>) {
    let calls = Rc::new(RefCell::new(Vec::new()));
    let recorder = Recorder { public, calls: calls.clone() };
    (Network::new(me, threshold, Box::new(recorder)), calls)
}

fn health_changes(calls: &Rc<RefCell<Vec<Call>>>) -> Vec<(Health, Health)> {
    let mut changes = Vec::new();
    for call in calls.borrow().iter() {
        if let Call::HealthChange(old, new) = call {
            changes.push((*old, *new));
        }
    }
    changes
}

fn count(calls: &Rc<RefCell<Vec<Call>>>, wanted: &Call) -> usize {
    calls.borrow().iter().filter(|call| *call == wanted).count()
}

#[test]
fn default_configuration_has_the_documented_values() {
    let cfg = NetworkConfig::default();
    assert_eq!(cfg.min_delay, 1000);
    assert_eq!(cfg.max_delay, 300_000);
    assert_eq!(cfg.quality_bad_threshold, 200);
    assert_eq!(cfg.quality_offline_threshold, 500);
    assert_eq!(cfg.quality_step, 100);
    assert_eq!(cfg.ignore_timeframe, 600_000);
    assert_eq!(cfg.backoff_min, 2000);
    assert_eq!(cfg.backoff_max, 300_000);
    assert_eq!(UNIT, 1000);
}

#[test]
fn health_values_are_ordered_by_rank() {
    assert!(Health::UNKNOWN < Health::RED);
    assert!(Health::RED < Health::ORANGE);
    assert!(Health::ORANGE < Health::YELLOW);
    assert!(Health::YELLOW < Health::GREEN);
    assert!(!(Health::GREEN < Health::GREEN));
    assert!(Health::GREEN > Health::UNKNOWN);
    assert_eq!(Health::UNKNOWN.scalar(), 0);
    assert_eq!(Health::RED.scalar(), 1);
    assert_eq!(Health::ORANGE.scalar(), 2);
    assert_eq!(Health::YELLOW.scalar(), 3);
    assert_eq!(Health::GREEN.scalar(), 4);
    let mut all = vec![Health::GREEN, Health::RED, Health::UNKNOWN, Health::YELLOW, Health::ORANGE];
    all.sort();
    assert_eq!(
        all,
        vec![Health::UNKNOWN, Health::RED, Health::ORANGE, Health::YELLOW, Health::GREEN]
    );
}

#[test]
fn health_values_are_shown_by_name() {
    assert_eq!(Health::UNKNOWN.to_string(), "UNKNOWN");
    assert_eq!(Health::RED.to_string(), "RED");
    assert_eq!(Health::ORANGE.to_string(), "ORANGE");
    assert_eq!(Health::YELLOW.to_string(), "YELLOW");
    assert_eq!(Health::GREEN.to_string(), "GREEN");
}

#[test]
fn origins_are_shown_by_description() {
    assert_eq!(PeerOrigin::Initialization.to_string(), "node initialization");
    assert_eq!(PeerOrigin::NetworkRegistry.to_string(), "network registry");
    assert_eq!(PeerOrigin::IncomingConnection.to_string(), "incoming connection");
    assert_eq!(PeerOrigin::OutgoingConnection.to_string(), "outgoing connection attempt");
    assert_eq!(
        PeerOrigin::StrategyExistingChannel.to_string(),
        "strategy monitors existing channel"
    );
    assert_eq!(
        PeerOrigin::StrategyConsideringChannel.to_string(),
        "strategy considers opening a channel"
    );
    assert_eq!(PeerOrigin::StrategyNewChannel.to_string(), "strategy decided to open new channel");
    assert_eq!(PeerOrigin::ManualPing.to_string(), "manual ping");
    assert_eq!(PeerOrigin::Testing.to_string(), "testing");
    assert_eq!(PeerOrigin::Testing.as_str(), "testing");
}

#[test]
fn square_roots_are_rounded_down() {
    assert_eq!(isqrt(0), 0);
    assert_eq!(isqrt(1), 1);
    assert_eq!(isqrt(3), 1);
    assert_eq!(isqrt(4), 2);
    assert_eq!(isqrt(8_000_000), 2828);
    assert_eq!(isqrt(99), 9);
    assert_eq!(isqrt(100), 10);
    assert_eq!(isqrt(u128::MAX), u64::MAX);
}

#[test]
fn backoff_grows_by_the_power_three_halves() {
    assert_eq!(raise(0), 0);
    assert_eq!(raise(1000), 1000);
    assert_eq!(raise(2000), 2828);
    assert_eq!(raise(4000), 8000);
    assert_eq!(raise(300_000), 5_196_152);
    assert_eq!(raise(5_196_152), 374_561_184);
    assert_eq!(raise(374_561_184), 229_236_703_092);
    assert_eq!(raise(229_236_703_092), 3_470_773_162_464_501);
}

#[test]
fn backoff_stops_at_the_largest_number() {
    // the power of the next step has 22 digits
    assert_eq!(raise(3_470_773_162_464_501), u64::MAX);
    assert_eq!(raise(69_814_636_583_315), 18_446_744_073_709_317_411);
    assert_eq!(raise(69_814_636_583_316), u64::MAX);
    assert_eq!(raise(u64::MAX), u64::MAX);
}

#[test]
fn delay_is_the_stretched_shortest_delay_capped_at_the_longest() {
    // a backoff of 2 stretches one second to 2.828 seconds
    assert_eq!(delay_for(1000, 300_000, 2000), 2828);
    assert_eq!(delay_for(500, 300_000, 2000), 1414);
    assert_eq!(delay_for(1, 300_000, 2000), 2);
    // a backoff of 4 stretches by 8
    assert_eq!(delay_for(1000, 300_000, 4000), 8000);
    // a backoff of 300 stretches by 5196.152, more than the longest delay allows
    assert_eq!(delay_for(1000, 300_000, 300_000), 300_000);
    assert_eq!(delay_for(1000, 300_000, 0), 0);
    assert_eq!(delay_for(0, 300_000, 2000), 0);
    assert_eq!(delay_for(u64::MAX, u64::MAX, u64::MAX), u64::MAX);
    assert_eq!(delay_for(1000, 5_000_000, 300_000), 5_000_000);
    assert_eq!(delay_for(1000, 6_000_000, 300_000), 5_196_152);
    assert_eq!(delay_for(1000, 5_196_152, 300_000), 5_196_152);
    assert_eq!(delay_for(1000, 5_196_151, 300_000), 5_196_151);
}

#[test]
fn numbers_are_written_in_decimal() {
    assert_eq!(decimal_text(0), "0");
    assert_eq!(decimal_text(7), "7");
    assert_eq!(decimal_text(10), "10");
    assert_eq!(decimal_text(1_024), "1024");
    assert_eq!(decimal_text(u64::MAX), "18446744073709551615");
}

#[test]
fn thousandths_are_written_without_trailing_zeros() {
    assert_eq!(fixed_text(0), "0");
    assert_eq!(fixed_text(5), "0.005");
    assert_eq!(fixed_text(50), "0.05");
    assert_eq!(fixed_text(100), "0.1");
    assert_eq!(fixed_text(120), "0.12");
    assert_eq!(fixed_text(123), "0.123");
    assert_eq!(fixed_text(300), "0.3");
    assert_eq!(fixed_text(1000), "1");
    assert_eq!(fixed_text(1500), "1.5");
    assert_eq!(fixed_text(2000), "2");
    assert_eq!(fixed_text(300_000), "300");
    assert_eq!(fixed_text(5_196_152), "5196.152");
    assert_eq!(fixed_text(10_001), "10.001");
}

#[test]
fn failure_verdict_follows_the_thresholds() {
    let cfg = NetworkConfig::default();
    assert_eq!(judge_failure(&cfg, 0), FailureVerdict::Evict);
    assert_eq!(judge_failure(&cfg, 49), FailureVerdict::Evict);
    assert_eq!(judge_failure(&cfg, 50), FailureVerdict::Ignore);
    assert_eq!(judge_failure(&cfg, 199), FailureVerdict::Ignore);
    assert_eq!(judge_failure(&cfg, 200), FailureVerdict::Offline);
    assert_eq!(judge_failure(&cfg, 499), FailureVerdict::Offline);
    assert_eq!(judge_failure(&cfg, 500), FailureVerdict::Retain);
    assert_eq!(judge_failure(&cfg, 1000), FailureVerdict::Retain);
    let odd = NetworkConfig { quality_step: 101, ..cfg };
    assert_eq!(judge_failure(&odd, 50), FailureVerdict::Evict);
    assert_eq!(judge_failure(&odd, 51), FailureVerdict::Ignore);
}

#[test]
fn new_record_starts_without_history() {
    let peer = PeerId::random();
    let status = PeerStatus::new(peer, PeerOrigin::ManualPing, 2000);
    assert_eq!(
        status,
        PeerStatus::build(peer, PeerOrigin::ManualPing, false, 0, 0, 0, 0, 2000)
    );
    assert_eq!(status.id, peer);
    assert_eq!(status.quality, 0);
    assert_eq!(status.backoff, 2000);
}

#[test]
fn peer_id_of_a_record_is_the_base58_text() {
    let peer = PeerId::random();
    let status = PeerStatus::new(peer, PeerOrigin::Testing, 2000);
    assert_eq!(status.peer_id(), peer.to_base58());
    assert_eq!(status.peer_id(), peer.to_string());
    let other = PeerStatus::new(PeerId::random(), PeerOrigin::Testing, 2000);
    assert_ne!(status.peer_id(), other.peer_id());
}

#[test]
fn successful_probe_resets_backoff_and_raises_quality_by_one_step() {
    let cfg = NetworkConfig::default();
    let peer = PeerId::random();
    let before = PeerStatus::build(peer, PeerOrigin::Testing, false, 5, 400, 7, 3, 300_000);
    let after = before.succeeded(&cfg, 99, true);
    assert_eq!(after, PeerStatus::build(peer, PeerOrigin::Testing, true, 99, 500, 8, 4, 2000));
}

#[test]
fn quality_is_capped_at_one_whole() {
    let cfg = NetworkConfig::default();
    let peer = PeerId::random();
    let high = PeerStatus::build(peer, PeerOrigin::Testing, false, 5, 950, 7, 3, 2000);
    assert_eq!(high.succeeded(&cfg, 6, false).quality, 1000);
    let full = PeerStatus::build(peer, PeerOrigin::Testing, false, 5, 1000, 7, 3, 2000);
    assert_eq!(full.succeeded(&cfg, 6, false).quality, 1000);
    let huge = NetworkConfig { quality_step: u64::MAX, ..cfg };
    assert_eq!(full.succeeded(&huge, 6, false).quality, 1000);
}

#[test]
fn failed_probe_lowers_quality_and_saturates_backoff() {
    let cfg = NetworkConfig::default();
    let peer = PeerId::random();
    let before = PeerStatus::build(peer, PeerOrigin::Testing, true, 5, 400, 7, 3, 2000);
    let once = before.failed(&cfg, false);
    // the power three halves of 2 is below the largest backoff, which therefore applies
    assert_eq!(once, PeerStatus::build(peer, PeerOrigin::Testing, false, 5, 300, 8, 3, 300_000));
    let twice = once.failed(&cfg, false);
    assert_eq!(twice, PeerStatus::build(peer, PeerOrigin::Testing, false, 5, 200, 9, 3, 5_196_152));
    let low = PeerStatus::build(peer, PeerOrigin::Testing, true, 5, 50, 7, 3, 2000);
    assert_eq!(low.failed(&cfg, true).quality, 0);
}

#[test]
fn counters_stop_when_they_are_full() {
    let cfg = NetworkConfig::default();
    let peer = PeerId::random();
    let full = PeerStatus::build(peer, PeerOrigin::Testing, false, 0, 0, u64::MAX, u64::MAX, 2000);
    let after = full.succeeded(&cfg, 1, false);
    assert_eq!(after.heartbeats_sent, u64::MAX);
    assert_eq!(after.heartbeats_succeeded, u64::MAX);
    assert_eq!(full.failed(&cfg, false).heartbeats_sent, u64::MAX);
}

#[test]
fn probe_is_due_strictly_before_the_threshold() {
    let cfg = NetworkConfig::default();
    let peer = PeerId::random();
    let status = PeerStatus::build(peer, PeerOrigin::Testing, false, 10_000, 100, 1, 1, 2000);
    assert!(!status.due(&cfg, 12_001));
    assert!(!status.due(&cfg, 12_500));
    assert!(!status.due(&cfg, 12_828));
    assert!(status.due(&cfg, 12_829));
    assert!(status.due(&cfg, 13_000));
    let backed_off = PeerStatus::build(peer, PeerOrigin::Testing, false, 10_000, 0, 1, 0, 300_000);
    assert!(!backed_off.due(&cfg, 310_000));
    assert!(backed_off.due(&cfg, 310_001));
    let late = PeerStatus::build(peer, PeerOrigin::Testing, false, u64::MAX, 0, 1, 0, 2000);
    assert!(!late.due(&cfg, u64::MAX));
}

#[test]
fn record_is_shown_on_one_line() {
    let peer = PeerId::random();
    let status = PeerStatus::build(peer, PeerOrigin::NetworkRegistry, true, 1234, 300, 5, 4, 300_000);
    assert_eq!(
        status.to_string(),
        format!(
            "Entry: [id={}, origin=network registry, last seen on=1234, quality=0.3, heartbeats sent=5, heartbeats succeeded=4, backoff=300]",
            peer
        )
    );
}

#[test]
fn debug_output_has_one_line_per_peer_in_registration_order() {
    let first = PeerId::random();
    let second = PeerId::random();
    let (mut peers, _) = network(PeerId::random(), 600, vec![]);
    assert_eq!(peers.debug_output(), "");
    peers.add_at(&first, PeerOrigin::IncomingConnection, 10);
    peers.add_at(&second, PeerOrigin::ManualPing, 11);
    peers.update_at(&first, Ok(4242), 20);
    assert_eq!(
        peers.debug_output(),
        format!(
            "Entry: [id={}, origin=incoming connection, last seen on=4242, quality=0.1, heartbeats sent=1, heartbeats succeeded=1, backoff=2]\nEntry: [id={}, origin=manual ping, last seen on=0, quality=0, heartbeats sent=0, heartbeats succeeded=0, backoff=2]\n",
            first, second
        )
    );
}

#[test]
fn own_identifier_is_never_registered() {
    let me = PeerId::random();
    let other = PeerId::random();
    let (mut peers, calls) = network(me, 600, vec![me]);
    peers.add_at(&me, PeerOrigin::Initialization, 1);
    assert!(!peers.has(&me));
    peers.add_at(&other, PeerOrigin::Initialization, 2);
    peers.add_at(&me, PeerOrigin::Testing, 3);
    peers.update_at(&me, Ok(4), 4);
    peers.update_at(&me, Err(()), 5);
    peers.remove(&me);
    peers.add_at(&me, PeerOrigin::Testing, 1_000_000_000);
    assert!(!peers.has(&me));
    assert_eq!(peers.length(), 1);
    assert_eq!(peers.get_peer_status(&me), None);
    assert_eq!(count(&calls, &Call::IsPublic(me)), 0);
}

#[test]
fn adding_a_registered_peer_changes_nothing() {
    let peer = PeerId::random();
    let (mut peers, calls) = network(PeerId::random(), 600, vec![]);
    peers.add_at(&peer, PeerOrigin::IncomingConnection, 1);
    peers.update_at(&peer, Ok(5), 5);
    let before = peers.get_peer_status(&peer);
    let asked = calls.borrow().len();
    peers.add_at(&peer, PeerOrigin::Testing, 6);
    assert_eq!(peers.get_peer_status(&peer), before);
    assert_eq!(peers.length(), 1);
    assert_eq!(calls.borrow().len(), asked);
}

#[test]
fn added_peer_gets_a_fresh_record_with_its_publicity() {
    let peer = PeerId::random();
    let (mut peers, calls) = network(PeerId::random(), 600, vec![peer]);
    assert_eq!(peers.get_peer_status(&peer), None);
    peers.add_at(&peer, PeerOrigin::OutgoingConnection, 77);
    assert_eq!(
        peers.get_peer_status(&peer),
        Some(PeerStatus::build(peer, PeerOrigin::OutgoingConnection, true, 0, 0, 0, 0, 2000))
    );
    assert_eq!(
        *calls.borrow(),
        vec![Call::IsPublic(peer), Call::HealthChange(Health::UNKNOWN, Health::ORANGE)]
    );
}

#[test]
fn three_successful_updates_raise_quality_to_three_steps() {
    let peer = PeerId::random();
    let (mut peers, _) = network(PeerId::random(), 600, vec![]);
    peers.add_at(&peer, PeerOrigin::IncomingConnection, 1);
    for at in 0..3 {
        peers.update_at(&peer, Ok(100 + at), 100 + at);
    }
    let status = peers.get_peer_status(&peer).unwrap();
    assert_eq!(status.quality, 300);
    assert_eq!(status.backoff, 2000);
    assert_eq!(status.heartbeats_sent, 3);
    assert_eq!(status.heartbeats_succeeded, 3);
    assert_eq!(status.last_seen, 102);
    for at in 0..20 {
        peers.update_at(&peer, Ok(200 + at), 200 + at);
    }
    assert_eq!(peers.get_peer_status(&peer).unwrap().quality, 1000);
}

#[test]
fn failed_update_evicts_a_fresh_peer_at_once() {
    let peer = PeerId::random();
    let (mut peers, calls) = network(PeerId::random(), 600, vec![]);
    peers.add_at(&peer, PeerOrigin::IncomingConnection, 1);
    peers.update_at(&peer, Err(()), 2);
    assert!(!peers.has(&peer));
    assert_eq!(peers.length(), 0);
    assert_eq!(count(&calls, &Call::Close(peer)), 1);
    assert_eq!(
        *calls.borrow(),
        vec![
            Call::IsPublic(peer),
            Call::HealthChange(Health::UNKNOWN, Health::RED),
            Call::IsPublic(peer),
            Call::Close(peer),
        ]
    );
    // the health is not settled anew by an eviction
    assert_eq!(peers.health(), Health::RED);
    assert_eq!(peers.metrics().non_public_low, 0);
}

#[test]
fn evicted_peer_is_kept_out_for_the_ignore_timeframe() {
    let peer = PeerId::random();
    let evicted_at = 1_000_000;
    let (mut peers, _) = network(PeerId::random(), 600, vec![]);
    peers.add_at(&peer, PeerOrigin::IncomingConnection, 1);
    peers.update_at(&peer, Err(()), evicted_at);
    assert!(!peers.has(&peer));

    peers.add_at(&peer, PeerOrigin::IncomingConnection, evicted_at);
    assert!(!peers.has(&peer));
    peers.add_at(&peer, PeerOrigin::IncomingConnection, evicted_at - 10);
    assert!(!peers.has(&peer));
    peers.add_at(&peer, PeerOrigin::IncomingConnection, evicted_at + 599_999);
    assert!(!peers.has(&peer));
    peers.add_at(&peer, PeerOrigin::IncomingConnection, evicted_at + 600_000);
    assert!(!peers.has(&peer));
    peers.add_at(&peer, PeerOrigin::IncomingConnection, evicted_at + 600_001);
    assert!(peers.has(&peer));
    assert_eq!(peers.get_peer_status(&peer).unwrap().quality, 0);

    // once admitted again the peer is off the ignore list
    peers.remove(&peer);
    peers.add_at(&peer, PeerOrigin::IncomingConnection, evicted_at + 600_002);
    assert!(peers.has(&peer));
}

#[test]
fn peer_of_bad_quality_stays_and_is_put_on_the_ignore_list() {
    let peer = PeerId::random();
    let (mut peers, calls) = network(PeerId::random(), 600, vec![]);
    peers.add_at(&peer, PeerOrigin::IncomingConnection, 1);
    peers.update_at(&peer, Ok(2), 2);
    peers.update_at(&peer, Ok(3), 3);
    peers.update_at(&peer, Err(()), 5000);
    assert!(peers.has(&peer));
    assert_eq!(peers.get_peer_status(&peer).unwrap().quality, 100);
    assert_eq!(count(&calls, &Call::Close(peer)), 0);
    assert_eq!(count(&calls, &Call::Offline(peer)), 0);
    peers.remove(&peer);
    peers.add_at(&peer, PeerOrigin::IncomingConnection, 5000 + 600_000);
    assert!(!peers.has(&peer));
    peers.add_at(&peer, PeerOrigin::IncomingConnection, 5000 + 600_001);
    assert!(peers.has(&peer));
}

#[test]
fn peer_between_the_thresholds_is_reported_offline() {
    let peer = PeerId::random();
    let (mut peers, calls) = network(PeerId::random(), 600, vec![]);
    peers.add_at(&peer, PeerOrigin::IncomingConnection, 1);
    for at in 0..4 {
        peers.update_at(&peer, Ok(at), at);
    }
    assert_eq!(count(&calls, &Call::Offline(peer)), 0);
    peers.update_at(&peer, Err(()), 10);
    assert_eq!(peers.get_peer_status(&peer).unwrap().quality, 300);
    assert_eq!(count(&calls, &Call::Offline(peer)), 1);
    peers.update_at(&peer, Err(()), 11);
    assert_eq!(peers.get_peer_status(&peer).unwrap().quality, 200);
    assert_eq!(count(&calls, &Call::Offline(peer)), 2);
    peers.update_at(&peer, Err(()), 12);
    assert_eq!(peers.get_peer_status(&peer).unwrap().quality, 100);
    assert_eq!(count(&calls, &Call::Offline(peer)), 2);
    // not put on the ignore list while it was only offline: checked through removal
    let other = PeerId::random();
    peers.add_at(&other, PeerOrigin::IncomingConnection, 13);
    for at in 0..4 {
        peers.update_at(&other, Ok(at), at);
    }
    peers.update_at(&other, Err(()), 20);
    peers.remove(&other);
    peers.add_at(&other, PeerOrigin::IncomingConnection, 21);
    assert!(peers.has(&other));
}

#[test]
fn peer_at_the_offline_threshold_after_a_failure_is_not_reported() {
    let peer = PeerId::random();
    let (mut peers, calls) = network(PeerId::random(), 300, vec![]);
    peers.add_at(&peer, PeerOrigin::IncomingConnection, 1);
    for at in 0..4 {
        peers.update_at(&peer, Ok(at), at);
    }
    peers.update_at(&peer, Err(()), 10);
    assert_eq!(peers.get_peer_status(&peer).unwrap().quality, 300);
    assert_eq!(count(&calls, &Call::Offline(peer)), 0);
    assert_eq!(peers.get_peer_status(&peer).unwrap().backoff, 300_000);
}

#[test]
fn health_change_is_reported_once_per_transition() {
    let public_peer = PeerId::random();
    let hidden_peer = PeerId::random();
    let (mut peers, calls) = network(PeerId::random(), 300, vec![public_peer]);

    peers.add_at(&hidden_peer, PeerOrigin::IncomingConnection, 1);
    assert_eq!(health_changes(&calls), vec![(Health::UNKNOWN, Health::RED)]);
    peers.update_at(&hidden_peer, Ok(2), 2);
    peers.update_at(&hidden_peer, Ok(3), 3);
    assert_eq!(health_changes(&calls), vec![(Health::UNKNOWN, Health::RED)]);

    peers.add_at(&public_peer, PeerOrigin::IncomingConnection, 4);
    assert_eq!(
        health_changes(&calls),
        vec![(Health::UNKNOWN, Health::RED), (Health::RED, Health::ORANGE)]
    );
    peers.update_at(&public_peer, Ok(5), 5);
    peers.update_at(&public_peer, Ok(6), 6);
    assert_eq!(health_changes(&calls).len(), 2);

    // the public peer reaches the threshold, and this node is not public
    peers.update_at(&public_peer, Ok(7), 7);
    assert_eq!(peers.health(), Health::YELLOW);
    assert_eq!(health_changes(&calls).len(), 3);
    assert_eq!(health_changes(&calls)[2], (Health::ORANGE, Health::YELLOW));

    // the peer behind NAT reaches it too
    peers.update_at(&hidden_peer, Ok(8), 8);
    assert_eq!(peers.health(), Health::GREEN);
    assert_eq!(health_changes(&calls).len(), 4);
    assert_eq!(health_changes(&calls)[3], (Health::YELLOW, Health::GREEN));

    peers.update_at(&hidden_peer, Ok(9), 9);
    peers.update_at(&public_peer, Ok(10), 10);
    peers.remove(&hidden_peer);
    assert_eq!(health_changes(&calls).len(), 4);
    assert_eq!(peers.health(), Health::GREEN);
}

#[test]
fn own_publicity_is_asked_only_where_the_health_depends_on_it() {
    let me = PeerId::random();
    let public_peer = PeerId::random();
    let hidden_peer = PeerId::random();
    let (mut peers, calls) = network(me, 300, vec![public_peer]);
    peers.add_at(&public_peer, PeerOrigin::IncomingConnection, 1);
    peers.add_at(&hidden_peer, PeerOrigin::IncomingConnection, 1);
    peers.update_at(&public_peer, Ok(2), 2);
    peers.update_at(&public_peer, Ok(3), 3);
    assert_eq!(count(&calls, &Call::IsPublic(me)), 0);
    peers.update_at(&public_peer, Ok(4), 4);
    assert_eq!(count(&calls, &Call::IsPublic(me)), 1);
    peers.update_at(&hidden_peer, Ok(5), 5);
    assert_eq!(count(&calls, &Call::IsPublic(me)), 2);
    peers.update_at(&hidden_peer, Ok(6), 6);
    assert_eq!(count(&calls, &Call::IsPublic(me)), 3);
    assert_eq!(peers.health(), Health::YELLOW);
    // with a good peer behind NAT the health is green whatever this node is
    peers.update_at(&hidden_peer, Ok(7), 7);
    assert_eq!(count(&calls, &Call::IsPublic(me)), 3);
    assert_eq!(peers.health(), Health::GREEN);
    peers.update_at(&public_peer, Ok(8), 8);
    assert_eq!(count(&calls, &Call::IsPublic(me)), 3);
}

#[test]
fn public_peer_of_good_quality_alone_makes_the_network_yellow() {
    let peer = PeerId::random();
    let (mut peers, _) = network(PeerId::random(), 300, vec![peer]);
    peers.add_at(&peer, PeerOrigin::IncomingConnection, 1);
    assert_eq!(peers.health(), Health::ORANGE);
    for at in 0..3 {
        peers.update_at(&peer, Ok(at), at);
    }
    assert_eq!(peers.health(), Health::YELLOW);
}

#[test]
fn network_turns_green_when_a_peer_behind_nat_becomes_good_too() {
    let peer = PeerId::random();
    let peer2 = PeerId::random();
    let (mut peers, calls) = network(PeerId::random(), 300, vec![peer]);
    peers.add_at(&peer, PeerOrigin::IncomingConnection, 1);
    peers.add_at(&peer2, PeerOrigin::IncomingConnection, 1);
    for round in 0..3 {
        peers.update_at(&peer2, Ok(round), round);
        assert_eq!(peers.health(), Health::ORANGE);
        peers.update_at(&peer, Ok(round), round);
    }
    assert_eq!(peers.health(), Health::GREEN);
    assert_eq!(
        health_changes(&calls),
        vec![(Health::UNKNOWN, Health::ORANGE), (Health::ORANGE, Health::GREEN)]
    );
}

#[test]
fn metrics_count_each_peer_in_the_class_of_its_record() {
    let public_good = PeerId::random();
    let public_bad = PeerId::random();
    let hidden_good = PeerId::random();
    let hidden_bad = PeerId::random();
    let hidden_bad2 = PeerId::random();
    let (mut peers, _) = network(PeerId::random(), 300, vec![public_good, public_bad]);
    assert_eq!(
        peers.metrics(),
        NetworkMetrics {
            peer_count: 0,
            public_high: 0,
            public_low: 0,
            non_public_high: 0,
            non_public_low: 0,
            health: 0
        }
    );
    for peer in [public_good, public_bad, hidden_good, hidden_bad, hidden_bad2] {
        peers.add_at(&peer, PeerOrigin::IncomingConnection, 1);
    }
    for at in 0..3 {
        peers.update_at(&public_good, Ok(at), at);
        peers.update_at(&hidden_good, Ok(at), at);
    }
    peers.update_at(&public_bad, Ok(1), 1);
    let gauges = peers.metrics();
    assert_eq!(
        gauges,
        NetworkMetrics {
            peer_count: 5,
            public_high: 1,
            public_low: 1,
            non_public_high: 1,
            non_public_low: 2,
            health: 4
        }
    );
    assert_eq!(
        gauges.public_high + gauges.public_low + gauges.non_public_high + gauges.non_public_low,
        peers.length()
    );

    // a peer moves from one class to another and is counted once
    peers.update_at(&public_good, Err(()), 10);
    let moved = peers.metrics();
    assert_eq!(moved.public_high, 0);
    assert_eq!(moved.public_low, 2);
    assert_eq!(moved.peer_count, 5);

    peers.remove(&hidden_bad);
    peers.update_at(&hidden_bad2, Err(()), 11);
    let fewer = peers.metrics();
    assert_eq!(fewer.non_public_low, 0);
    assert_eq!(fewer.peer_count, 3);
    assert_eq!(
        fewer.public_high + fewer.public_low + fewer.non_public_high + fewer.non_public_low,
        peers.length()
    );
}

#[test]
fn publicity_is_refreshed_by_every_update() {
    let peer = PeerId::random();
    let calls = Rc::new(RefCell::new(Vec::new()));
    let (mut hidden_first, _) = network(PeerId::random(), 300, vec![]);
    hidden_first.add_at(&peer, PeerOrigin::IncomingConnection, 1);
    assert!(!hidden_first.get_peer_status(&peer).unwrap().is_public);
    let recorder = Recorder { public: vec![peer], calls };
    let mut public_first = Network::new(PeerId::random(), 300, Box::new(recorder));
    public_first.add_at(&peer, PeerOrigin::IncomingConnection, 1);
    public_first.update_at(&peer, Ok(2), 2);
    assert!(public_first.get_peer_status(&peer).unwrap().is_public);
    assert_eq!(public_first.metrics().public_low, 1);
}

#[test]
fn peers_to_ping_are_the_due_ones_oldest_first() {
    let a = PeerId::random();
    let b = PeerId::random();
    let c = PeerId::random();
    let d = PeerId::random();
    let (mut peers, _) = network(PeerId::random(), 600, vec![]);
    for peer in [a, b, c, d] {
        peers.add_at(&peer, PeerOrigin::IncomingConnection, 1);
    }
    peers.update_at(&a, Ok(5000), 5000);
    peers.update_at(&b, Ok(3000), 3000);
    peers.update_at(&c, Ok(5000), 5000);
    peers.update_at(&d, Ok(1000), 1000);

    // each delay is 2828 ms: a backoff of 2 to the power three halves is 2.828
    assert_eq!(peers.find_peers_to_ping(0), vec![]);
    assert_eq!(peers.find_peers_to_ping(3828), vec![]);
    assert_eq!(peers.find_peers_to_ping(3829), vec![d]);
    assert_eq!(peers.find_peers_to_ping(5828), vec![d]);
    assert_eq!(peers.find_peers_to_ping(5829), vec![d, b]);
    assert_eq!(peers.find_peers_to_ping(7828), vec![d, b]);
    // of two peers seen at the same time the one registered earlier comes first
    assert_eq!(peers.find_peers_to_ping(7829), vec![d, b, a, c]);
    assert_eq!(peers.find_peers_to_ping(u64::MAX), vec![d, b, a, c]);
}

#[test]
fn peer_seen_at_10000_is_due_from_12829() {
    let peer = PeerId::random();
    let me = PeerId::random();
    let (mut peers, _) = network(me, 600, vec![]);
    peers.add(&peer, PeerOrigin::Testing);
    peers.update(&peer, Ok(10_000));
    assert_eq!(peers.get_peer_status(&peer).unwrap().backoff, 2000);
    assert_eq!(peers.find_peers_to_ping(12_500), vec![]);
    assert_eq!(peers.find_peers_to_ping(12_828), vec![]);
    assert_eq!(peers.find_peers_to_ping(12_829), vec![peer]);
    assert_eq!(peers.find_peers_to_ping(13_000), vec![peer]);
    assert!(!peers.find_peers_to_ping(u64::MAX).contains(&me));
}

#[test]
fn backoff_of_a_peer_that_keeps_failing_grows_until_it_is_full() {
    let peer = PeerId::random();
    let (mut peers, _) = network(PeerId::random(), 600, vec![]);
    peers.add_at(&peer, PeerOrigin::Testing, 1);
    for at in 0..10 {
        peers.update_at(&peer, Ok(at), at);
    }
    assert_eq!(peers.get_peer_status(&peer).unwrap().quality, 1000);
    let expected: [u64; 7] = [
        300_000,
        5_196_152,
        374_561_184,
        229_236_703_092,
        3_470_773_162_464_501,
        u64::MAX,
        u64::MAX,
    ];
    for backoff in expected {
        peers.update_at(&peer, Err(()), 100);
        assert_eq!(peers.get_peer_status(&peer).unwrap().backoff, backoff);
    }
    assert_eq!(peers.get_peer_status(&peer).unwrap().quality, 300);
    assert!(peers.debug_output().contains("backoff=18446744073709551.615]"));
    // the delay stays at the longest whatever the backoff
    assert_eq!(peers.find_peers_to_ping(300_009), vec![]);
    assert_eq!(peers.find_peers_to_ping(300_010), vec![peer]);
}

#[test]
fn quality_of_a_registered_peer_is_a_fraction() {
    let peer = PeerId::random();
    let (mut peers, _) = network(PeerId::random(), 600, vec![]);
    peers.add_at(&peer, PeerOrigin::Testing, 1);
    for at in 0..25 {
        peers.update_at(&peer, Ok(at), at);
        assert!(peers.get_peer_status(&peer).unwrap().quality <= 1000);
    }
    assert_eq!(peers.get_peer_status(&peer).unwrap().quality, 1000);
    peers.update_at(&peer, Err(()), 30);
    assert_eq!(peers.get_peer_status(&peer).unwrap().quality, 900);
}

#[test]
fn peer_that_failed_is_pinged_after_the_longest_delay() {
    let peer = PeerId::random();
    let (mut peers, _) = network(PeerId::random(), 600, vec![]);
    peers.add_at(&peer, PeerOrigin::IncomingConnection, 1);
    peers.update_at(&peer, Ok(1000), 1000);
    peers.update_at(&peer, Ok(2000), 2000);
    peers.update_at(&peer, Err(()), 3000);
    assert_eq!(peers.get_peer_status(&peer).unwrap().backoff, 300_000);
    assert_eq!(peers.find_peers_to_ping(302_000), vec![]);
    assert_eq!(peers.find_peers_to_ping(302_001), vec![peer]);
}

#[test]
fn filter_returns_the_accepted_peers_in_registration_order() {
    let a = PeerId::random();
    let b = PeerId::random();
    let c = PeerId::random();
    let (mut peers, _) = network(PeerId::random(), 600, vec![b]);
    for peer in [a, b, c] {
        peers.add_at(&peer, PeerOrigin::IncomingConnection, 1);
    }
    peers.update_at(&c, Ok(9), 9);
    assert_eq!(peers.filter(|_| true), vec![a, b, c]);
    assert_eq!(peers.filter(|_| false), vec![]);
    assert_eq!(peers.filter(|status| status.is_public), vec![b]);
    assert_eq!(peers.filter(|status| status.quality == 0), vec![a, b]);
    let floor = 50;
    assert_eq!(peers.filter(|status| status.quality > floor), vec![c]);
    peers.remove(&a);
    assert_eq!(peers.filter(|_| true), vec![b, c]);
}

#[test]
fn removing_an_unknown_peer_changes_nothing() {
    let peer = PeerId::random();
    let stranger = PeerId::random();
    let (mut peers, calls) = network(PeerId::random(), 600, vec![]);
    peers.add_at(&peer, PeerOrigin::IncomingConnection, 1);
    let asked = calls.borrow().len();
    peers.remove(&stranger);
    assert_eq!(peers.length(), 1);
    assert!(peers.has(&peer));
    assert_eq!(peers.metrics().non_public_low, 1);
    assert_eq!(calls.borrow().len(), asked);
}

#[test]
fn get_peer_status_returns_a_copy() {
    let peer = PeerId::random();
    let (mut peers, _) = network(PeerId::random(), 600, vec![]);
    peers.add_at(&peer, PeerOrigin::IncomingConnection, 1);
    let mut copy = peers.get_peer_status(&peer).unwrap();
    copy.quality = 999;
    assert_eq!(peers.get_peer_status(&peer).unwrap().quality, 0);
}

#[test]
fn health_follows_the_classification() {
    for own_public in [false, true] {
        for good_non_public in [false, true] {
            // without public peers the network is red
            assert_eq!(assess(false, false, good_non_public, own_public), Health::RED);
            // a public peer of low quality makes it orange
            assert_eq!(assess(true, false, good_non_public, own_public), Health::ORANGE);
        }
        for bad_public in [false, true] {
            // with a public peer of high quality a good peer behind NAT makes it green
            assert_eq!(assess(bad_public, true, true, own_public), Health::GREEN);
        }
    }
    for bad_public in [false, true] {
        assert_eq!(assess(bad_public, true, false, true), Health::GREEN);
        assert_eq!(assess(bad_public, true, false, false), Health::YELLOW);
    }
}

#[test]
fn removing_a_peer_twice_is_removing_it_once() {
    let peer = PeerId::random();
    let other = PeerId::random();
    let (mut peers, _) = network(PeerId::random(), 600, vec![]);
    peers.add_at(&peer, PeerOrigin::IncomingConnection, 1);
    peers.add_at(&other, PeerOrigin::IncomingConnection, 1);
    peers.remove(&peer);
    let once = (peers.length(), peers.metrics(), peers.debug_output());
    peers.remove(&peer);
    assert_eq!((peers.length(), peers.metrics(), peers.debug_output()), once);
    assert!(peers.has(&other));
    // a removed peer is not on the ignore list
    peers.add_at(&peer, PeerOrigin::IncomingConnection, 2);
    assert!(peers.has(&peer));
}

#[test]
fn clock_shows_a_time_after_the_year_2020() {
    let first = current_timestamp();
    let second = current_timestamp();
    assert!(first > 1_577_836_800_000);
    assert!(second >= first);
}

#[test]
fn peer_evicted_by_the_clock_is_kept_out_now_and_admitted_later() {
    let peer = PeerId::random();
    let (mut peers, _) = network(PeerId::random(), 600, vec![]);
    peers.add(&peer, PeerOrigin::IncomingConnection);
    assert!(peers.has(&peer));
    let before = current_timestamp();
    peers.update(&peer, Err(()));
    let after = current_timestamp();
    assert!(!peers.has(&peer));
    peers.add(&peer, PeerOrigin::IncomingConnection);
    assert!(!peers.has(&peer));
    peers.add_at(&peer, PeerOrigin::IncomingConnection, before + 600_000);
    assert!(!peers.has(&peer));
    peers.add_at(&peer, PeerOrigin::IncomingConnection, after + 600_001);
    assert!(peers.has(&peer));
}

#[test]
fn timestamp_is_the_number_of_milliseconds_where_it_fits() {
    assert_eq!(timestamp_of(None), 0);
    assert_eq!(timestamp_of(Some(0)), 0);
    assert_eq!(timestamp_of(Some(1_700_000_000_123)), 1_700_000_000_123);
    assert_eq!(timestamp_of(Some(u64::MAX as u128)), u64::MAX);
    assert_eq!(timestamp_of(Some(u64::MAX as u128 + 1)), u64::MAX);
    assert_eq!(timestamp_of(Some(u128::MAX)), u64::MAX);
}
