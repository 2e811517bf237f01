//! What holds of every network, stated over the model and proved.
use crate::actions::{health_events, Event};
use crate::config::{NetworkConfig, UNIT};
use crate::health::Health;
use crate::keyed::lemma_position;
use crate::model::{
    classified, due_queue, lemma_classified_push, lemma_keys_push, lemma_keys_remove,
    lemma_keys_replace, lemma_queued, lemma_unregistered_is_unclassified, oldest_first, peer_keys,
    NetworkModel,
};
use crate::network::Network;
use crate::origin::PeerOrigin;
use crate::peer::peer_id_text;
use crate::status::PeerStatus;
use libp2p::PeerId;
use vstd::prelude::*;

verus! {

/// The changes of health that a sequence of calls reports, oldest first:
/// for each call of `on_network_health_change` the health before and after.
pub open spec fn told_changes(events: Seq<Event>) -> Seq<(Health, Health)>
    decreases events.len(),
{
    if events.len() == 0 {
        Seq::empty()
    } else {
        match events.last() {
            Event::HealthChanged { from, to } => told_changes(events.drop_last()).push((from, to)),
            _ => told_changes(events.drop_last()),
        }
    }
}

/// The classification index holds the registered peers and no others, each
/// under the class of its record and under no other: a key stands in the set
/// of a class exactly if it is registered and its record is of that class.
pub proof fn lemma_index_agrees_with_registry(
    net: &Network,
    key: Seq<char>,
    good: bool,
    public: bool,
)
    requires
        net.wf(),
    ensures
        net.index(good, public).contains(key) <==> net@.has(key) && net@.status(
            key,
        ).unwrap().is_good(net@.cfg) == good && net@.status(key).unwrap().is_public == public,
{
    net.lemma_wf();
    let m = net@;
    assert(net.index(good, public) == m.bucket(good, public));
    if m.bucket(good, public).contains(key) {
        let j = choose|j: int|
            0 <= j < m.peers.len() && #[trigger] m.peers[j].key() == key && m.peers[j].is_good(
                m.cfg,
            ) == good && m.peers[j].is_public == public;
        assert(m.keys()[j] == key);
        lemma_position(m.keys(), j);
    }
    if m.has(key) {
        let at = m.position(key);
        assert(m.keys()[at] == key);
        assert(m.peers[at].key() == key);
    }
}

/// A registered peer stands in exactly one of the four sets of the index,
/// and a peer that is not registered in none.
pub proof fn lemma_index_partitions(net: &Network, key: Seq<char>)
    requires
        net.wf(),
    ensures
        net@.has(key) ==> (net.index(true, true).contains(key) as int) + (net.index(
            true,
            false,
        ).contains(key) as int) + (net.index(false, true).contains(key) as int) + (net.index(
            false,
            false,
        ).contains(key) as int) == 1,
        !net@.has(key) ==> !net.index(true, true).contains(key) && !net.index(
            true,
            false,
        ).contains(key) && !net.index(false, true).contains(key) && !net.index(
            false,
            false,
        ).contains(key),
{
    lemma_index_agrees_with_registry(net, key, true, true);
    lemma_index_agrees_with_registry(net, key, true, false);
    lemma_index_agrees_with_registry(net, key, false, true);
    lemma_index_agrees_with_registry(net, key, false, false);
}

/// The quality of every registered peer lies between 0 and one whole.
pub proof fn lemma_quality_is_a_fraction(net: &Network, key: Seq<char>)
    requires
        net.wf(),
        net@.has(key),
    ensures
        0 <= net@.status(key).unwrap().quality <= UNIT,
{
    net.lemma_wf();
    let at = net@.position(key);
    assert(net@.keys()[at] == key);
}

/// This node is never registered: a network does not hold its own
/// identifier, and `add` with it changes nothing and calls nothing.
pub proof fn lemma_self_is_never_registered(
    net: &Network,
    me: PeerId,
    origin: PeerOrigin,
    public: bool,
    own_public: bool,
    now: u64,
)
    requires
        net.wf(),
        peer_id_text(me) == net@.me,
    ensures
        !net@.has(net@.me),
        net@.after_add(me, origin, public, own_public, now) == net@,
        net@.add_events(me, origin, public, own_public, now) == Seq::<Event>::empty(),
{
    net.lemma_wf();
}

/// `add` keeps a network well formed.
pub proof fn lemma_add_keeps_wf(
    m: NetworkModel,
    peer: PeerId,
    origin: PeerOrigin,
    public: bool,
    own_public: bool,
    now: u64,
)
    requires
        m.wf(),
    ensures
        m.after_add(peer, origin, public, own_public, now).wf(),
        m.after_add(peer, origin, public, own_public, now).has(peer_id_text(peer)) <==> m.has(
            peer_id_text(peer),
        ) || m.admits(peer_id_text(peer), now),
{
    let key = peer_id_text(peer);
    if m.admits(key, now) {
        let record = m.newcomer(peer, origin, public);
        lemma_keys_push(m.peers, record);
        let keys = m.keys().push(key);
        assert(keys[m.keys().len() as int] == key);
        assert forall|a: int, b: int| 0 <= a < keys.len() && 0 <= b < keys.len() && a != b
            implies keys[a] != keys[b] by {
            if a < m.keys().len() {
                assert(m.keys()[a] == keys[a]);
            }
            if b < m.keys().len() {
                assert(m.keys()[b] == keys[b]);
            }
        }
        assert forall|a: int| 0 <= a < keys.len() implies keys[a] != m.me by {
            if a < m.keys().len() {
                assert(m.keys()[a] == keys[a]);
            }
        }
    }
}

/// `update` keeps a network well formed. A peer that it evicts is not
/// registered afterwards and stands on the ignore list as of that update;
/// an update that evicts no peer leaves the same peers registered.
pub proof fn lemma_update_keeps_wf(
    m: NetworkModel,
    key: Seq<char>,
    outcome: Result<u64, ()>,
    public: bool,
    own_public: bool,
    now: u64,
)
    requires
        m.wf(),
    ensures
        m.after_update(key, outcome, public, own_public, now).wf(),
        m.evicts(key, outcome) ==> !m.after_update(key, outcome, public, own_public, now).has(key)
            && m.after_update(key, outcome, public, own_public, now).ignored.contains_key(key)
            && m.after_update(key, outcome, public, own_public, now).ignored[key] == now,
        !m.evicts(key, outcome) ==> m.after_update(key, outcome, public, own_public, now).keys()
            == m.keys(),
{
    if m.has(key) {
        let at = m.position(key);
        assert(m.keys()[at] == key);
        assert(m.peers[at].key() == key);
        if m.evicts(key, outcome) {
            lemma_keys_remove(m.peers, at);
            let after = m.keys().remove(at);
            assert forall|a: int| 0 <= a < after.len() implies after[a] != m.me by {
                let a0 = if a < at { a } else { a + 1 };
                assert(after[a] == m.keys()[a0]);
            }
        } else {
            lemma_keys_replace(m.peers, at, m.probed(key, outcome, public));
        }
    }
}

/// `remove` keeps a network well formed, and the peer is not registered afterwards.
pub proof fn lemma_remove_keeps_wf(m: NetworkModel, key: Seq<char>)
    requires
        m.wf(),
    ensures
        m.after_remove(key).wf(),
        !m.after_remove(key).has(key),
{
    if m.has(key) {
        let at = m.position(key);
        assert(m.keys()[at] == key);
        assert(m.peers[at].key() == key);
        lemma_keys_remove(m.peers, at);
        let after = m.keys().remove(at);
        assert forall|a: int| 0 <= a < after.len() implies after[a] != m.me by {
            let a0 = if a < at { a } else { a + 1 };
            assert(after[a] == m.keys()[a0]);
        }
    }
}

/// Settling the health reports a change exactly once where the health is
/// no longer what it was, with the health before and after, and reports
/// nothing where the health is the same.
pub proof fn lemma_health_change_is_told_once(
    me: Seq<char>,
    asked: bool,
    own_public: bool,
    before: Health,
    after: Health,
)
    ensures
        told_changes(health_events(me, asked, own_public, before, after)) == if after != before {
            seq![(before, after)]
        } else {
            Seq::<(Health, Health)>::empty()
        },
{
    let events = health_events(me, asked, own_public, before, after);
    let question = if asked {
        seq![Event::PublicityAsked { peer: me, answer: own_public }]
    } else {
        Seq::<Event>::empty()
    };
    assert(told_changes(question) =~= Seq::<(Health, Health)>::empty()) by {
        if asked {
            assert(question.drop_last() =~= Seq::<Event>::empty());
            assert(told_changes(question.drop_last()) =~= Seq::<(Health, Health)>::empty());
        }
    }
    if after != before {
        assert(events.drop_last() =~= question);
        assert(events.last() == Event::HealthChanged { from: before, to: after });
        assert(told_changes(events) =~= seq![(before, after)]);
    } else {
        assert(events =~= question);
    }
}

/// Events that are no reports of a change of health, put before others,
/// add nothing to the changes told.
proof fn lemma_told_changes_behind(head: Seq<Event>, tail: Seq<Event>)
    requires
        forall|i: int| 0 <= i < head.len() ==> !(head[i] is HealthChanged),
    ensures
        told_changes(head + tail) == told_changes(tail),
    decreases tail.len(),
{
    if tail.len() == 0 {
        assert(head + tail =~= head);
        lemma_no_changes_told(head);
    } else {
        assert((head + tail).drop_last() =~= head + tail.drop_last());
        assert((head + tail).last() == tail.last());
        lemma_told_changes_behind(head, tail.drop_last());
    }
}

/// Events of which none reports a change of health tell no change.
proof fn lemma_no_changes_told(events: Seq<Event>)
    requires
        forall|i: int| 0 <= i < events.len() ==> !(events[i] is HealthChanged),
    ensures
        told_changes(events) == Seq::<(Health, Health)>::empty(),
    decreases events.len(),
{
    if events.len() > 0 {
        lemma_no_changes_told(events.drop_last());
    }
}

/// `update` tells the node of a change of health once where it changes the
/// health, with the health before and after, and never where the health
/// stays what it was.
pub proof fn lemma_update_tells_health_change_once(
    m: NetworkModel,
    key: Seq<char>,
    outcome: Result<u64, ()>,
    public: bool,
    own_public: bool,
    now: u64,
)
    ensures
        told_changes(m.update_events(key, outcome, public, own_public, now)) == if m.after_update(
            key,
            outcome,
            public,
            own_public,
            now,
        ).health != m.health {
            seq![(m.health, m.after_update(key, outcome, public, own_public, now).health)]
        } else {
            Seq::<(Health, Health)>::empty()
        },
{
    let events = m.update_events(key, outcome, public, own_public, now);
    let after = m.after_update(key, outcome, public, own_public, now);
    if !m.has(key) {
    } else if m.evicts(key, outcome) {
        lemma_no_changes_told(events);
    } else {
        let settled = health_events(
            m.me,
            after.asks_own_publicity(),
            own_public,
            m.health,
            after.health,
        );
        let head = events.subrange(0, events.len() - settled.len());
        assert(events =~= head + settled);
        lemma_told_changes_behind(head, settled);
        lemma_health_change_is_told_once(
            m.me,
            after.asks_own_publicity(),
            own_public,
            m.health,
            after.health,
        );
    }
}

/// `add` tells the node of a change of health once where it changes the
/// health, with the health before and after, and never where the health
/// stays what it was.
pub proof fn lemma_add_tells_health_change_once(
    m: NetworkModel,
    peer: PeerId,
    origin: PeerOrigin,
    public: bool,
    own_public: bool,
    now: u64,
)
    ensures
        told_changes(m.add_events(peer, origin, public, own_public, now)) == if m.after_add(
            peer,
            origin,
            public,
            own_public,
            now,
        ).health != m.health {
            seq![(m.health, m.after_add(peer, origin, public, own_public, now).health)]
        } else {
            Seq::<(Health, Health)>::empty()
        },
{
    let key = peer_id_text(peer);
    let events = m.add_events(peer, origin, public, own_public, now);
    let after = m.after_add(peer, origin, public, own_public, now);
    if m.admits(key, now) {
        let settled = health_events(
            m.me,
            after.asks_own_publicity(),
            own_public,
            m.health,
            after.health,
        );
        let head = seq![Event::PublicityAsked { peer: key, answer: public }];
        assert(events =~= head + settled);
        lemma_told_changes_behind(head, settled);
        lemma_health_change_is_told_once(
            m.me,
            after.asks_own_publicity(),
            own_public,
            m.health,
            after.health,
        );
    }
}

/// A probe that a registered peer answers puts its backoff back to
/// `backoff_min` and raises its quality by one step, to one whole at most.
pub proof fn lemma_success_resets_backoff(
    m: NetworkModel,
    key: Seq<char>,
    seen: u64,
    public: bool,
    own_public: bool,
    now: u64,
)
    requires
        m.wf(),
        m.has(key),
    ensures
        ({
            let before = m.status(key).unwrap();
            let after = m.after_update(key, Ok(seen), public, own_public, now).status(key);
            &&& after is Some
            &&& after.unwrap().backoff == m.cfg.backoff_min
            &&& after.unwrap().last_seen == seen
            &&& after.unwrap().quality == if before.quality + m.cfg.quality_step < UNIT {
                before.quality + m.cfg.quality_step
            } else {
                UNIT as int
            }
        }),
{
    let outcome: Result<u64, ()> = Ok(seen);
    let at = m.position(key);
    assert(m.keys()[at] == key);
    lemma_update_keeps_wf(m, key, outcome, public, own_public, now);
    let next = m.after_update(key, outcome, public, own_public, now);
    lemma_position(m.keys(), at);
    assert(next.keys() == m.keys());
    assert(next.peers[at] == m.probed(key, outcome, public));
}

/// A peer that the ignore list keeps out is not added: `add` changes
/// nothing and calls nothing.
pub proof fn lemma_blocked_peer_is_not_added(
    m: NetworkModel,
    peer: PeerId,
    origin: PeerOrigin,
    public: bool,
    own_public: bool,
    now: u64,
)
    requires
        m.blocked(peer_id_text(peer), now),
    ensures
        m.after_add(peer, origin, public, own_public, now) == m,
        m.add_events(peer, origin, public, own_public, now) == Seq::<Event>::empty(),
{
}

/// A peer that an update at the time `evicted_at` has evicted is not
/// registered by `add` at a time `now` for which no more than
/// `ignore_timeframe` has passed since, and is registered by `add` once
/// more than that has passed.
pub proof fn lemma_evicted_peer_stays_out(
    m: NetworkModel,
    peer: PeerId,
    outcome: Result<u64, ()>,
    evicted_at: u64,
    now: u64,
    origin: PeerOrigin,
    public: bool,
    own_public: bool,
)
    requires
        m.wf(),
        m.evicts(peer_id_text(peer), outcome),
    ensures
        ({
            let gone = m.after_update(peer_id_text(peer), outcome, public, own_public, evicted_at);
            let next = gone.after_add(peer, origin, public, own_public, now);
            &&& !gone.has(peer_id_text(peer))
            &&& now - evicted_at <= m.cfg.ignore_timeframe ==> next == gone && !next.has(
                peer_id_text(peer),
            )
            &&& now - evicted_at > m.cfg.ignore_timeframe ==> next.has(peer_id_text(peer))
        }),
{
    let key = peer_id_text(peer);
    lemma_update_keeps_wf(m, key, outcome, public, own_public, evicted_at);
    let gone = m.after_update(key, outcome, public, own_public, evicted_at);
    assert(gone.me == m.me);
    assert(gone.cfg == m.cfg);
    assert(m.keys()[m.position(key)] == key);
    assert(key != m.me);
    lemma_add_keeps_wf(gone, peer, origin, public, own_public, now);
}

/// The queue of the peers to probe is in the order of `last_seen`, oldest
/// first, and holds exactly the records whose next probe is due: each as
/// often as the registry holds it, and no other.
pub proof fn lemma_due_queue(peers: Seq<PeerStatus>, cfg: NetworkConfig, threshold: u64)
    ensures
        oldest_first(due_queue(peers, cfg, threshold)),
        forall|p: PeerStatus| #[trigger]
            due_queue(peers, cfg, threshold).to_multiset().count(p) == if p.is_due(
                cfg,
                threshold,
            ) {
                peers.to_multiset().count(p)
            } else {
                0
            },
    decreases peers.len(),
{
    broadcast use vstd::seq_lib::group_to_multiset_ensures;

    if peers.len() == 0 {
        assert(peers.to_multiset() =~= vstd::multiset::Multiset::<PeerStatus>::empty());
        assert(due_queue(peers, cfg, threshold).to_multiset() =~= vstd::multiset::Multiset::<
            PeerStatus,
        >::empty());
    } else {
        let rest = peers.drop_last();
        lemma_due_queue(rest, cfg, threshold);
        assert(rest.push(peers.last()) =~= peers);
        assert(peers.to_multiset() =~= rest.to_multiset().insert(peers.last()));
        if peers.last().is_due(cfg, threshold) {
            lemma_queued(due_queue(rest, cfg, threshold), peers.last());
        }
    }
}

/// A registered peer is in the queue of the peers to probe exactly if its
/// `last_seen` plus its delay lies below the threshold.
pub proof fn lemma_due_peers_are_queued(m: NetworkModel, threshold: u64, key: Seq<char>)
    requires
        m.wf(),
        m.has(key),
    ensures
        peer_keys(due_queue(m.peers, m.cfg, threshold)).contains(key) <==> m.status(
            key,
        ).unwrap().is_due(m.cfg, threshold),
{
    broadcast use vstd::seq_lib::group_to_multiset_ensures;

    lemma_due_queue(m.peers, m.cfg, threshold);
    let queue = due_queue(m.peers, m.cfg, threshold);
    let at = m.position(key);
    assert(m.keys()[at] == key);
    let record = m.peers[at];
    assert(record.key() == key);
    if record.is_due(m.cfg, threshold) {
        assert(m.peers.contains(record));
        assert(queue.to_multiset().count(record) > 0);
        assert(queue.contains(record));
        let k = choose|k: int| 0 <= k < queue.len() && queue[k] == record;
        assert(peer_keys(queue)[k] == key);
    }
    if peer_keys(queue).contains(key) {
        let k = choose|k: int| 0 <= k < peer_keys(queue).len() && peer_keys(queue)[k] == key;
        let found = queue[k];
        assert(found.key() == key);
        assert(queue.contains(found));
        assert(queue.to_multiset().count(found) > 0);
        assert(found.is_due(m.cfg, threshold));
        assert(m.peers.to_multiset().count(found) > 0);
        assert(m.peers.contains(found));
        let j = choose|j: int| 0 <= j < m.peers.len() && m.peers[j] == found;
        assert(m.keys()[j] == key);
        lemma_position(m.keys(), j);
    }
}

/// The four classes share out the registered peers: their sets are finite,
/// and their sizes add up to the number of registered peers.
pub proof fn lemma_classes_share_out_the_peers(peers: Seq<PeerStatus>, cfg: NetworkConfig)
    requires
        peer_keys(peers).no_duplicates(),
    ensures
        classified(peers, cfg, true, true).finite(),
        classified(peers, cfg, true, false).finite(),
        classified(peers, cfg, false, true).finite(),
        classified(peers, cfg, false, false).finite(),
        classified(peers, cfg, true, true).len() + classified(peers, cfg, true, false).len()
            + classified(peers, cfg, false, true).len() + classified(
            peers,
            cfg,
            false,
            false,
        ).len() == peers.len(),
    decreases peers.len(),
{
    if peers.len() == 0 {
        assert(classified(peers, cfg, true, true) =~= Set::<Seq<char>>::empty());
        assert(classified(peers, cfg, true, false) =~= Set::<Seq<char>>::empty());
        assert(classified(peers, cfg, false, true) =~= Set::<Seq<char>>::empty());
        assert(classified(peers, cfg, false, false) =~= Set::<Seq<char>>::empty());
    } else {
        let rest = peers.drop_last();
        let last = peers.last();
        let at = peers.len() - 1;
        assert(rest == peers.remove(at));
        lemma_keys_remove(peers, at);
        lemma_classes_share_out_the_peers(rest, cfg);
        assert(rest.push(last) =~= peers);
        lemma_classified_push(rest, cfg, last, true, true);
        lemma_classified_push(rest, cfg, last, true, false);
        lemma_classified_push(rest, cfg, last, false, true);
        lemma_classified_push(rest, cfg, last, false, false);
        lemma_unregistered_is_unclassified(rest, cfg, last.key(), true, true);
        lemma_unregistered_is_unclassified(rest, cfg, last.key(), true, false);
        lemma_unregistered_is_unclassified(rest, cfg, last.key(), false, true);
        lemma_unregistered_is_unclassified(rest, cfg, last.key(), false, false);
    }
}

/// The gauges of the classes add up to the gauge of all peers.
pub proof fn lemma_class_counts_add_up(net: &Network)
    requires
        net.wf(),
    ensures
        net@.bucket(true, true).len() + net@.bucket(true, false).len() + net@.bucket(
            false,
            true,
        ).len() + net@.bucket(false, false).len() == net@.peers.len(),
{
    net.lemma_wf();
    lemma_classes_share_out_the_peers(net@.peers, net@.cfg);
}

/// A probe that a peer without quality fails to answer evicts the peer,
/// whatever the thresholds are, where the quality step is not 0.
pub proof fn lemma_failure_evicts_a_peer_without_quality(m: NetworkModel, key: Seq<char>)
    requires
        m.has(key),
        m.status(key).unwrap().quality == 0,
        m.cfg.quality_step > 0,
    ensures
        m.evicts(key, Err(())),
{
}

} // verus!
