//! The network as a mathematical value, and what each operation makes of it.
use crate::actions::{health_events, Event};
use crate::config::{NetworkConfig, UNIT};
use crate::health::{health_needs_own_publicity, network_health, Health};
use crate::origin::PeerOrigin;
use crate::peer::peer_id_text;
use crate::status::{failure_verdict, FailureVerdict, PeerStatus};
use libp2p::PeerId;
use vstd::prelude::*;

verus! {

/// The keys of a sequence of records, in order.
pub open spec fn peer_keys(peers: Seq<PeerStatus>) -> Seq<Seq<char>> {
    peers.map_values(|p: PeerStatus| p.key())
}

/// The keys of the records of one class: of good or of bad quality, public or not.
pub open spec fn classified(
    peers: Seq<PeerStatus>,
    cfg: NetworkConfig,
    good: bool,
    public: bool,
) -> Set<Seq<char>> {
    Set::new(
        |k: Seq<char>|
            exists|i: int|
                0 <= i < peers.len() && #[trigger] peers[i].key() == k && peers[i].is_good(cfg)
                    == good && peers[i].is_public == public,
    )
}

/// Whether the quality of each record lies between 0 and one whole.
pub open spec fn qualities_are_fractions(peers: Seq<PeerStatus>) -> bool {
    forall|i: int| 0 <= i < peers.len() ==> (#[trigger] peers[i]).quality <= UNIT
}

/// The set `keys` with `key` put into it where `fits`, and taken out of it where not.
pub open spec fn filed(keys: Set<Seq<char>>, key: Seq<char>, fits: bool) -> Set<Seq<char>> {
    if fits {
        keys.insert(key)
    } else {
        keys.remove(key)
    }
}

/// What a network holds.
pub struct NetworkModel {
    /// This node's own identifier.
    pub me: Seq<char>,
    pub cfg: NetworkConfig,
    /// The registered peers, in the order of their registration.
    pub peers: Seq<PeerStatus>,
    /// The ignore list: when each peer on it was put there.
    pub ignored: Map<Seq<char>, u64>,
    /// The health as it was last settled.
    pub health: Health,
}

impl NetworkModel {
    /// The keys of the registered peers.
    pub open spec fn keys(self) -> Seq<Seq<char>> {
        peer_keys(self.peers)
    }

    /// No peer is registered twice, this node is not registered, and no
    /// quality lies above one whole.
    pub open spec fn wf(self) -> bool {
        &&& self.cfg.wf()
        &&& self.keys().no_duplicates()
        &&& !self.keys().contains(self.me)
        &&& qualities_are_fractions(self.peers)
    }

    /// A network without peers.
    pub open spec fn initial(me: Seq<char>, cfg: NetworkConfig) -> NetworkModel {
        NetworkModel {
            me,
            cfg,
            peers: Seq::empty(),
            ignored: Map::empty(),
            health: Health::UNKNOWN,
        }
    }

    pub open spec fn has(self, key: Seq<char>) -> bool {
        self.keys().contains(key)
    }

    /// Where the peer `key` stands among the registered peers.
    pub open spec fn position(self, key: Seq<char>) -> int {
        self.keys().index_of(key)
    }

    /// The record of the peer `key`.
    pub open spec fn status(self, key: Seq<char>) -> Option<PeerStatus> {
        if self.has(key) {
            Some(self.peers[self.position(key)])
        } else {
            None
        }
    }

    /// Whether the ignore list keeps the peer `key` out at the time `now`:
    /// it does until more than `ignore_timeframe` has passed since the peer was put on it.
    pub open spec fn blocked(self, key: Seq<char>, now: u64) -> bool {
        self.ignored.contains_key(key) && now - self.ignored[key] <= self.cfg.ignore_timeframe
    }

    /// Whether `add` registers the peer `key` at the time `now`.
    pub open spec fn admits(self, key: Seq<char>, now: u64) -> bool {
        key != self.me && !self.has(key) && !self.blocked(key, now)
    }

    /// The keys of the registered peers of one class.
    pub open spec fn bucket(self, good: bool, public: bool) -> Set<Seq<char>> {
        classified(self.peers, self.cfg, good, public)
    }

    /// Whether settling the health asks if this node is public.
    pub open spec fn asks_own_publicity(self) -> bool {
        health_needs_own_publicity(
            !self.bucket(true, true).is_empty(),
            !self.bucket(true, false).is_empty(),
        )
    }

    /// The health that the registered peers yield.
    pub open spec fn assessed(self, own_public: bool) -> Health {
        network_health(
            !self.bucket(false, true).is_empty(),
            !self.bucket(true, true).is_empty(),
            !self.bucket(true, false).is_empty(),
            own_public,
        )
    }

    /// The network with its health settled anew.
    pub open spec fn refreshed(self, own_public: bool) -> NetworkModel {
        NetworkModel { health: self.assessed(own_public), ..self }
    }

    /// The calls that settling the health makes.
    pub open spec fn refresh_events(self, own_public: bool) -> Seq<Event> {
        health_events(
            self.me,
            self.asks_own_publicity(),
            own_public,
            self.health,
            self.assessed(own_public),
        )
    }

    /// The record that `add` makes for a peer.
    pub open spec fn newcomer(self, peer: PeerId, origin: PeerOrigin, public: bool) -> PeerStatus {
        PeerStatus { is_public: public, ..PeerStatus::fresh(peer, origin, self.cfg.backoff_min) }
    }

    /// The network after `add`. A peer that is not admitted changes nothing.
    /// One that is admitted is registered behind the others and leaves the
    /// ignore list, and the health is settled anew.
    pub open spec fn after_add(
        self,
        peer: PeerId,
        origin: PeerOrigin,
        public: bool,
        own_public: bool,
        now: u64,
    ) -> NetworkModel {
        let key = peer_id_text(peer);
        if self.admits(key, now) {
            (NetworkModel {
                peers: self.peers.push(self.newcomer(peer, origin, public)),
                ignored: self.ignored.remove(key),
                ..self
            }).refreshed(own_public)
        } else {
            self
        }
    }

    /// The calls that `add` makes.
    pub open spec fn add_events(
        self,
        peer: PeerId,
        origin: PeerOrigin,
        public: bool,
        own_public: bool,
        now: u64,
    ) -> Seq<Event> {
        let key = peer_id_text(peer);
        if self.admits(key, now) {
            seq![Event::PublicityAsked { peer: key, answer: public }] + (NetworkModel {
                peers: self.peers.push(self.newcomer(peer, origin, public)),
                ignored: self.ignored.remove(key),
                ..self
            }).refresh_events(own_public)
        } else {
            Seq::empty()
        }
    }

    /// The network after `remove`: the peer is gone, the rest is as it was.
    pub open spec fn after_remove(self, key: Seq<char>) -> NetworkModel {
        if self.has(key) {
            NetworkModel { peers: self.peers.remove(self.position(key)), ..self }
        } else {
            self
        }
    }

    /// The record of the peer `key` after a probe with the result `outcome`.
    pub open spec fn probed(self, key: Seq<char>, outcome: Result<u64, ()>, public: bool) -> PeerStatus
        recommends
            self.has(key),
    {
        let before = self.peers[self.position(key)];
        match outcome {
            Ok(seen) => before.after_success(self.cfg, seen, public),
            Err(_) => before.after_failure(self.cfg, public),
        }
    }

    /// Whether a probe with the result `outcome` evicts the peer `key`.
    pub open spec fn evicts(self, key: Seq<char>, outcome: Result<u64, ()>) -> bool {
        &&& self.has(key)
        &&& outcome is Err
        &&& failure_verdict(self.cfg, self.probed(key, outcome, false).quality)
            == FailureVerdict::Evict
    }

    /// The network with the record of the peer `key` replaced after a probe
    /// that did not evict it, before the health is settled: a failed probe
    /// that leaves the quality under the bad threshold puts the peer on the
    /// ignore list.
    pub open spec fn kept(
        self,
        key: Seq<char>,
        outcome: Result<u64, ()>,
        public: bool,
        now: u64,
    ) -> NetworkModel
        recommends
            self.has(key),
    {
        let next = self.probed(key, outcome, public);
        NetworkModel {
            peers: self.peers.update(self.position(key), next),
            ignored: if outcome is Err && failure_verdict(self.cfg, next.quality)
                == FailureVerdict::Ignore {
                self.ignored.insert(key, now)
            } else {
                self.ignored
            },
            ..self
        }
    }

    /// The report that the peer `key` is offline, where a failed probe leaves
    /// its quality between the bad and the offline threshold.
    pub open spec fn offline_events(
        self,
        key: Seq<char>,
        outcome: Result<u64, ()>,
        public: bool,
    ) -> Seq<Event>
        recommends
            self.has(key),
    {
        if outcome is Err && failure_verdict(
            self.cfg,
            self.probed(key, outcome, public).quality,
        ) == FailureVerdict::Offline {
            seq![Event::PeerOffline { peer: key }]
        } else {
            Seq::empty()
        }
    }

    /// The network with the peer `key` evicted at the time `now`: the peer is
    /// taken out of the registry and put on the ignore list, and the health stays.
    pub open spec fn evicted(self, key: Seq<char>, now: u64) -> NetworkModel
        recommends
            self.has(key),
    {
        NetworkModel {
            peers: self.peers.remove(self.position(key)),
            ignored: self.ignored.insert(key, now),
            ..self
        }
    }

    /// The network after `update`. An unknown peer changes nothing. A failed
    /// probe that leaves the quality under half a step evicts the peer. Else
    /// the record is replaced and the health is settled anew.
    pub open spec fn after_update(
        self,
        key: Seq<char>,
        outcome: Result<u64, ()>,
        public: bool,
        own_public: bool,
        now: u64,
    ) -> NetworkModel {
        if !self.has(key) {
            self
        } else if self.evicts(key, outcome) {
            self.evicted(key, now)
        } else {
            self.kept(key, outcome, public, now).refreshed(own_public)
        }
    }

    /// The calls that `update` makes: none for an unknown peer; else the
    /// question whether the peer is public, then `close_connection` for a
    /// peer that is evicted, and for one that stays `on_peer_offline`, where
    /// it is due, and the calls of settling the health.
    pub open spec fn update_events(
        self,
        key: Seq<char>,
        outcome: Result<u64, ()>,
        public: bool,
        own_public: bool,
        now: u64,
    ) -> Seq<Event> {
        if !self.has(key) {
            Seq::empty()
        } else if self.evicts(key, outcome) {
            seq![
                Event::PublicityAsked { peer: key, answer: public },
                Event::ConnectionClosed { peer: key },
            ]
        } else {
            seq![Event::PublicityAsked { peer: key, answer: public }] + self.offline_events(
                key,
                outcome,
                public,
            ) + self.kept(key, outcome, public, now).refresh_events(own_public)
        }
    }
}

/// Taking a key out before it is put in changes nothing of the outcome.
pub proof fn lemma_insert_after_remove(keys: Set<Seq<char>>, key: Seq<char>)
    ensures
        keys.remove(key).insert(key) == keys.insert(key),
        keys.remove(key).remove(key) == keys.remove(key),
{
    assert(keys.remove(key).insert(key) =~= keys.insert(key));
    assert(keys.remove(key).remove(key) =~= keys.remove(key));
}

/// A key that is not registered stands in no class.
pub proof fn lemma_unregistered_is_unclassified(
    peers: Seq<PeerStatus>,
    cfg: NetworkConfig,
    key: Seq<char>,
    good: bool,
    public: bool,
)
    requires
        !peer_keys(peers).contains(key),
    ensures
        !classified(peers, cfg, good, public).contains(key),
        classified(peers, cfg, good, public).remove(key) == classified(peers, cfg, good, public),
{
    let class = classified(peers, cfg, good, public);
    if class.contains(key) {
        let j = choose|j: int|
            0 <= j < peers.len() && #[trigger] peers[j].key() == key && peers[j].is_good(cfg)
                == good && peers[j].is_public == public;
        assert(peer_keys(peers)[j] == key);
    }
    assert(class.remove(key) =~= class);
}

/// Replacing a record by one of the same peer keeps the keys.
pub proof fn lemma_keys_replace(peers: Seq<PeerStatus>, i: int, r: PeerStatus)
    requires
        0 <= i < peers.len(),
        r.key() == peers[i].key(),
    ensures
        peer_keys(peers.update(i, r)) == peer_keys(peers),
{
    assert(peer_keys(peers.update(i, r)) =~= peer_keys(peers));
}

/// A record appended, its key appended.
pub proof fn lemma_keys_push(peers: Seq<PeerStatus>, r: PeerStatus)
    ensures
        peer_keys(peers.push(r)) == peer_keys(peers).push(r.key()),
{
    assert(peer_keys(peers.push(r)) =~= peer_keys(peers).push(r.key()));
}

/// A record taken out, its key taken out; keys that were distinct stay so.
pub proof fn lemma_keys_remove(peers: Seq<PeerStatus>, i: int)
    requires
        0 <= i < peers.len(),
    ensures
        peer_keys(peers.remove(i)) == peer_keys(peers).remove(i),
        peer_keys(peers).no_duplicates() ==> peer_keys(peers.remove(i)).no_duplicates()
            && !peer_keys(peers.remove(i)).contains(peers[i].key()),
{
    assert(peer_keys(peers.remove(i)) =~= peer_keys(peers).remove(i));
    if peer_keys(peers).no_duplicates() {
        let before = peer_keys(peers);
        let after = before.remove(i);
        assert forall|a: int, b: int| 0 <= a < after.len() && 0 <= b < after.len() && a != b
            implies after[a] != after[b] by {
            let a0 = if a < i { a } else { a + 1 };
            let b0 = if b < i { b } else { b + 1 };
            assert(after[a] == before[a0]);
            assert(after[b] == before[b0]);
        }
        assert forall|a: int| 0 <= a < after.len() implies after[a] != peers[i].key() by {
            let a0 = if a < i { a } else { a + 1 };
            assert(after[a] == before[a0]);
            assert(before[i] == peers[i].key());
        }
    }
}

/// Replacing the record of a peer moves its key into the class of the new
/// record and out of every other class.
pub proof fn lemma_classified_replace(
    peers: Seq<PeerStatus>,
    cfg: NetworkConfig,
    i: int,
    r: PeerStatus,
    good: bool,
    public: bool,
)
    requires
        peer_keys(peers).no_duplicates(),
        0 <= i < peers.len(),
        r.key() == peers[i].key(),
    ensures
        classified(peers.update(i, r), cfg, good, public) == filed(
            classified(peers, cfg, good, public),
            r.key(),
            r.is_good(cfg) == good && r.is_public == public,
        ),
{
    let next = peers.update(i, r);
    let before = classified(peers, cfg, good, public);
    let after = classified(next, cfg, good, public);
    let fits = r.is_good(cfg) == good && r.is_public == public;
    let expected = if fits {
        before.insert(r.key())
    } else {
        before.remove(r.key())
    };
    assert forall|k: Seq<char>| after.contains(k) <==> expected.contains(k) by {
        if after.contains(k) {
            let j = choose|j: int|
                0 <= j < next.len() && #[trigger] next[j].key() == k && next[j].is_good(cfg)
                    == good && next[j].is_public == public;
            if j != i {
                assert(peers[j].key() == k);
                assert(peer_keys(peers)[j] == k);
                assert(peer_keys(peers)[i] == r.key());
            }
        }
        if expected.contains(k) {
            if k == r.key() {
                assert(next[i].key() == k);
            } else {
                let j = choose|j: int|
                    0 <= j < peers.len() && #[trigger] peers[j].key() == k && peers[j].is_good(cfg)
                        == good && peers[j].is_public == public;
                assert(next[j].key() == k);
            }
        }
    }
    assert(after =~= expected);
}

/// A new record puts its key into its class and into no other.
pub proof fn lemma_classified_push(
    peers: Seq<PeerStatus>,
    cfg: NetworkConfig,
    r: PeerStatus,
    good: bool,
    public: bool,
)
    requires
        !peer_keys(peers).contains(r.key()),
    ensures
        !classified(peers, cfg, good, public).contains(r.key()),
        classified(peers.push(r), cfg, good, public) == filed(
            classified(peers, cfg, good, public),
            r.key(),
            r.is_good(cfg) == good && r.is_public == public,
        ),
{
    let next = peers.push(r);
    let before = classified(peers, cfg, good, public);
    let after = classified(next, cfg, good, public);
    let fits = r.is_good(cfg) == good && r.is_public == public;
    let expected = if fits {
        before.insert(r.key())
    } else {
        before.remove(r.key())
    };
    if before.contains(r.key()) {
        let j = choose|j: int|
            0 <= j < peers.len() && #[trigger] peers[j].key() == r.key() && peers[j].is_good(cfg)
                == good && peers[j].is_public == public;
        assert(peer_keys(peers)[j] == r.key());
    }
    assert forall|k: Seq<char>| after.contains(k) <==> expected.contains(k) by {
        if after.contains(k) {
            let j = choose|j: int|
                0 <= j < next.len() && #[trigger] next[j].key() == k && next[j].is_good(cfg)
                    == good && next[j].is_public == public;
            if j < peers.len() {
                assert(peers[j].key() == k);
            }
        }
        if expected.contains(k) {
            if k == r.key() {
                assert(next[peers.len() as int].key() == k);
            } else {
                let j = choose|j: int|
                    0 <= j < peers.len() && #[trigger] peers[j].key() == k && peers[j].is_good(cfg)
                        == good && peers[j].is_public == public;
                assert(next[j].key() == k);
            }
        }
    }
    assert(after =~= expected);
}

/// Taking a record out takes its key out of its class.
pub proof fn lemma_classified_remove(
    peers: Seq<PeerStatus>,
    cfg: NetworkConfig,
    i: int,
    good: bool,
    public: bool,
)
    requires
        peer_keys(peers).no_duplicates(),
        0 <= i < peers.len(),
    ensures
        classified(peers.remove(i), cfg, good, public) == classified(
            peers,
            cfg,
            good,
            public,
        ).remove(peers[i].key()),
{
    let next = peers.remove(i);
    let before = classified(peers, cfg, good, public);
    let after = classified(next, cfg, good, public);
    let expected = before.remove(peers[i].key());
    assert forall|k: Seq<char>| after.contains(k) <==> expected.contains(k) by {
        if after.contains(k) {
            let j = choose|j: int|
                0 <= j < next.len() && #[trigger] next[j].key() == k && next[j].is_good(cfg)
                    == good && next[j].is_public == public;
            let j0 = if j < i { j } else { j + 1 };
            assert(next[j] == peers[j0]);
            assert(peers[j0].key() == k);
            assert(peer_keys(peers)[j0] == k);
            assert(peer_keys(peers)[i] == peers[i].key());
        }
        if expected.contains(k) {
            let j = choose|j: int|
                0 <= j < peers.len() && #[trigger] peers[j].key() == k && peers[j].is_good(cfg)
                    == good && peers[j].is_public == public;
            let j1 = if j < i { j } else { j - 1 };
            assert(next[j1] == peers[j]);
            assert(next[j1].key() == k);
        }
    }
    assert(after =~= expected);
}

/// The identifiers of a sequence of records, in order.
pub open spec fn ids_of(peers: Seq<PeerStatus>) -> Seq<PeerId> {
    peers.map_values(|p: PeerStatus| p.id)
}

/// The identifiers of the records that a verdict picks, in the order of the records.
pub open spec fn chosen_ids(peers: Seq<PeerStatus>, verdicts: Seq<bool>) -> Seq<PeerId>
    decreases peers.len(),
{
    if peers.len() == 0 || verdicts.len() != peers.len() {
        Seq::empty()
    } else if verdicts.last() {
        chosen_ids(peers.drop_last(), verdicts.drop_last()).push(peers.last().id)
    } else {
        chosen_ids(peers.drop_last(), verdicts.drop_last())
    }
}

/// The lines that show a sequence of records, each closed by a line feed.
pub open spec fn lines_of(peers: Seq<PeerStatus>) -> Seq<char>
    decreases peers.len(),
{
    if peers.len() == 0 {
        Seq::empty()
    } else {
        lines_of(peers.drop_last()) + peers.last().line() + seq!['\n']
    }
}

/// A queue of records in the order of their `last_seen` with `p` put into
/// it: behind every record that was seen no later than `p`.
pub open spec fn queued(queue: Seq<PeerStatus>, p: PeerStatus) -> Seq<PeerStatus>
    decreases queue.len(),
{
    if queue.len() == 0 || queue.last().last_seen <= p.last_seen {
        queue.push(p)
    } else {
        queued(queue.drop_last(), p).push(queue.last())
    }
}

/// The records whose next probe is due before `threshold`, the one that was
/// seen longest ago first; of two that were seen at the same time the one
/// that was registered earlier comes first.
pub open spec fn due_queue(peers: Seq<PeerStatus>, cfg: NetworkConfig, threshold: u64) -> Seq<
    PeerStatus,
>
    decreases peers.len(),
{
    if peers.len() == 0 {
        Seq::empty()
    } else if peers.last().is_due(cfg, threshold) {
        queued(due_queue(peers.drop_last(), cfg, threshold), peers.last())
    } else {
        due_queue(peers.drop_last(), cfg, threshold)
    }
}

/// Whether a sequence of records is in the order of `last_seen`, oldest first.
pub open spec fn oldest_first(queue: Seq<PeerStatus>) -> bool {
    forall|a: int, b: int| 0 <= a < b < queue.len() ==> queue[a].last_seen <= queue[b].last_seen
}

/// Putting a record into a queue is inserting it at the place behind which
/// every record was seen later, and before which the next was seen no later.
pub proof fn lemma_queued_at(queue: Seq<PeerStatus>, p: PeerStatus, at: int)
    requires
        0 <= at <= queue.len(),
        forall|k: int| at <= k < queue.len() ==> queue[k].last_seen > p.last_seen,
        at > 0 ==> queue[at - 1].last_seen <= p.last_seen,
    ensures
        queued(queue, p) == queue.insert(at, p),
    decreases queue.len() - at,
{
    if at == queue.len() {
        assert(queue.insert(at, p) =~= queue.push(p));
    } else {
        lemma_queued_at(queue.drop_last(), p, at);
        assert(queue.drop_last().insert(at, p).push(queue.last()) =~= queue.insert(at, p));
    }
}

/// A queue with a record put into it holds that record and what it held,
/// and is in order where it was.
pub proof fn lemma_queued(queue: Seq<PeerStatus>, p: PeerStatus)
    ensures
        queued(queue, p).to_multiset() == queue.to_multiset().insert(p),
        queued(queue, p).len() == queue.len() + 1,
        oldest_first(queue) ==> oldest_first(queued(queue, p)),
    decreases queue.len(),
{
    broadcast use vstd::seq_lib::group_to_multiset_ensures;

    if queue.len() == 0 || queue.last().last_seen <= p.last_seen {
    } else {
        let rest = queue.drop_last();
        lemma_queued(rest, p);
        assert(rest.push(queue.last()) =~= queue);
        assert(queued(queue, p).to_multiset() =~= queue.to_multiset().insert(p));
        if oldest_first(queue) {
            let inner = queued(rest, p);
            let out = queued(queue, p);
            assert(oldest_first(rest));
            assert forall|a: int, b: int| 0 <= a < b < out.len() implies out[a].last_seen
                <= out[b].last_seen by {
                if b == out.len() - 1 {
                    assert(inner.to_multiset().count(inner[a]) > 0);
                    if inner[a] != p {
                        assert(rest.to_multiset().count(inner[a]) > 0);
                        let k = choose|k: int| 0 <= k < rest.len() && rest[k] == inner[a];
                        assert(queue[k] == inner[a]);
                    }
                }
            }
        }
    }
}

} // verus!
