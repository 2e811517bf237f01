//! The network: the registry of peers, their classification and the health that follows from it.
pub use crate::actions::NetworkExternalActions;
use crate::actions::{health_events, Event};
use crate::clock::current_timestamp;
pub use crate::config::NetworkConfig;
use crate::config::UNIT;
pub use crate::health::Health;
use crate::health::{assess, health_needs_own_publicity, network_health};
use crate::keyed::{lemma_position, KeySet, KeyedVec};
use crate::model::{
    chosen_ids, due_queue, filed, ids_of, lemma_classified_push, lemma_classified_remove,
    lemma_classified_replace, lemma_insert_after_remove, lemma_keys_push, lemma_keys_remove,
    lemma_keys_replace, lemma_queued_at, lemma_unregistered_is_unclassified, lines_of, peer_keys,
    qualities_are_fractions, NetworkModel,
};
pub use crate::origin::PeerOrigin;
use crate::peer::{peer_id_text, peer_text};
pub use crate::status::PeerStatus;
use crate::status::{judge_failure, FailureVerdict};
use libp2p::PeerId;
use vstd::prelude::*;
use vstd::string::*;

verus! {

/// The values that the gauges of a network show.
#[derive(Debug, Clone, Copy, PartialEq, Eq, Structural)]
pub struct NetworkMetrics {
    /// The number of registered peers.
    pub peer_count: usize,
    /// The number of public peers of high quality.
    pub public_high: usize,
    /// The number of public peers of low quality.
    pub public_low: usize,
    /// The number of peers behind NAT of high quality.
    pub non_public_high: usize,
    /// The number of peers behind NAT of low quality.
    pub non_public_low: usize,
    /// The rank of the health.
    pub health: u8,
}

/// The peers that a node knows, with the quality of each, and the health of
/// the network as the node sees it.
pub struct Network {
    me: PeerId,
    cfg: NetworkConfig,
    entries: KeyedVec<PeerStatus>,
    ignored: KeyedVec<u64>,
    excluded: KeySet,
    good_quality_public: KeySet,
    bad_quality_public: KeySet,
    good_quality_non_public: KeySet,
    bad_quality_non_public: KeySet,
    last_health: Health,
    /// Called by `ask_public`, `close_connection`, `notify_offline` and
    /// `notify_health_change` alone, each of which writes its call into `trace`.
    network_actions_api: Box<dyn NetworkExternalActions>,
    trace: Ghost<Seq<Event>>,
}

impl Network {
    /// What the network holds.
    pub closed spec fn view(&self) -> NetworkModel {
        NetworkModel {
            me: peer_id_text(self.me),
            cfg: self.cfg,
            peers: self.entries.values(),
            ignored: self.ignored@,
            health: self.last_health,
        }
    }

    /// The calls of external actions that the network has made, oldest first.
    pub closed spec fn trace(&self) -> Seq<Event> {
        self.trace@
    }

    /// The classification index: the keys that are filed under one class.
    pub closed spec fn index(&self, good: bool, public: bool) -> Set<Seq<char>> {
        if good {
            if public {
                self.good_quality_public@
            } else {
                self.good_quality_non_public@
            }
        } else {
            if public {
                self.bad_quality_public@
            } else {
                self.bad_quality_non_public@
            }
        }
    }

    /// The collections are well formed, each record stands under the key of
    /// its peer, and this node is excluded: the invariant without what it
    /// says of the index, which holds also while a record is being filed anew.
    pub(crate) closed spec fn parts_wf(&self) -> bool {
        &&& self.cfg.wf()
        &&& self.entries.wf()
        &&& self.ignored.wf()
        &&& self.excluded.wf()
        &&& self.good_quality_public.wf()
        &&& self.bad_quality_public.wf()
        &&& self.good_quality_non_public.wf()
        &&& self.bad_quality_non_public.wf()
        &&& self.excluded@ == set![peer_id_text(self.me)]
        &&& self.entries.keys() == peer_keys(self.entries.values())
        &&& !self.entries.keys().contains(peer_id_text(self.me))
        &&& qualities_are_fractions(self.entries.values())
    }

    /// The index files each registered peer under its class and holds nothing else.
    spec fn index_wf(&self) -> bool {
        &&& self.index(true, true) == self@.bucket(true, true)
        &&& self.index(true, false) == self@.bucket(true, false)
        &&& self.index(false, true) == self@.bucket(false, true)
        &&& self.index(false, false) == self@.bucket(false, false)
    }

    /// The invariant of the network: what it holds is well formed, and the
    /// classification index agrees with the registry.
    pub closed spec fn wf(&self) -> bool {
        self.parts_wf() && self.index_wf()
    }

    /// All but the index, the health and the trace is as in `before`.
    pub(crate) closed spec fn frame(&self, before: &Network) -> bool {
        &&& self.me == before.me
        &&& self.cfg == before.cfg
        &&& self.entries == before.entries
        &&& self.ignored == before.ignored
        &&& self.excluded == before.excluded
        &&& self.network_actions_api == before.network_actions_api
    }

    /// The index and the health are as in `before`.
    spec fn same_status(&self, before: &Network) -> bool {
        &&& self.good_quality_public == before.good_quality_public
        &&& self.bad_quality_public == before.bad_quality_public
        &&& self.good_quality_non_public == before.good_quality_non_public
        &&& self.bad_quality_non_public == before.bad_quality_non_public
        &&& self.last_health == before.last_health
    }

    /// The invariant holds of the parts.
    pub(crate) proof fn lemma_parts_wf(&self)
        requires
            self.wf(),
        ensures
            self.parts_wf(),
    {
    }

    /// What the invariant says of the model and of the index.
    pub proof fn lemma_wf(&self)
        requires
            self.wf(),
        ensures
            self@.wf(),
            forall|good: bool, public: bool| #[trigger]
                self.index(good, public) == self@.bucket(good, public),
    {
    }

    /// A network without peers, whose health is unknown. The offline
    /// threshold is `network_quality_threshold`; it has to lie above the bad
    /// threshold.
    pub fn new(
        my_peer_id: PeerId,
        network_quality_threshold: u64,
        network_actions_api: Box<dyn NetworkExternalActions>,
    ) -> (network: Network)
        requires
            NetworkConfig::standard().quality_bad_threshold < network_quality_threshold,
        ensures
            network.wf(),
            network@ == NetworkModel::initial(
                peer_id_text(my_peer_id),
                (NetworkConfig {
                    quality_offline_threshold: network_quality_threshold,
                    ..NetworkConfig::standard()
                }),
            ),
            network.trace() == Seq::<Event>::empty(),
    {
        let standard = NetworkConfig::default();
        let cfg = NetworkConfig {
            min_delay: standard.min_delay,
            max_delay: standard.max_delay,
            quality_bad_threshold: standard.quality_bad_threshold,
            quality_offline_threshold: network_quality_threshold,
            quality_step: standard.quality_step,
            ignore_timeframe: standard.ignore_timeframe,
            backoff_min: standard.backoff_min,
            backoff_max: standard.backoff_max,
        };

        let mut excluded = KeySet::new();
        excluded.insert(peer_text(&my_peer_id));

        let instance = Network {
            me: my_peer_id,
            cfg,
            entries: KeyedVec::new(),
            ignored: KeyedVec::new(),
            excluded,
            good_quality_public: KeySet::new(),
            bad_quality_public: KeySet::new(),
            good_quality_non_public: KeySet::new(),
            bad_quality_non_public: KeySet::new(),
            last_health: Health::UNKNOWN,
            network_actions_api,
            trace: Ghost(Seq::empty()),
        };

        proof {
            assert(instance.entries.keys() =~= peer_keys(instance.entries.values()));
            assert(instance.ignored@ =~= Map::<Seq<char>, u64>::empty());
            assert(instance@.bucket(true, true) =~= Set::<Seq<char>>::empty());
            assert(instance@.bucket(true, false) =~= Set::<Seq<char>>::empty());
            assert(instance@.bucket(false, true) =~= Set::<Seq<char>>::empty());
            assert(instance@.bucket(false, false) =~= Set::<Seq<char>>::empty());
        }

        instance
    }

    /// Whether `peer` is registered.
    pub fn has(&self, peer: &PeerId) -> (b: bool)
        requires
            self.wf(),
        ensures
            b == self@.has(peer_id_text(*peer)),
    {
        let id = peer_text(peer);
        self.entries.find(&id).is_some()
    }

    /// The number of registered peers.
    pub fn length(&self) -> (n: usize)
        requires
            self.wf(),
        ensures
            n == self@.peers.len(),
    {
        self.entries.len()
    }

    /// The health of the network as it was last settled.
    pub fn health(&self) -> (health: Health)
        ensures
            health == self@.health,
    {
        self.last_health
    }

    /// Asks the node whether `peer` is public.
    fn ask_public(&mut self, peer: &PeerId) -> (answer: bool)
        ensures
            final(self).frame(old(self)),
            final(self).same_status(old(self)),
            final(self)@ == old(self)@,
            old(self).wf() ==> final(self).wf(),
            final(self).trace@ == old(self).trace@.push(
                Event::PublicityAsked { peer: peer_id_text(*peer), answer },
            ),
    {
        let answer = self.network_actions_api.is_public(peer);
        proof {
            self.trace@ = self.trace@.push(
                Event::PublicityAsked { peer: peer_id_text(*peer), answer },
            );
        }
        answer
    }

    /// Has the node close the connection to `peer`.
    fn close_connection(&mut self, peer: &PeerId)
        ensures
            final(self).frame(old(self)),
            final(self).same_status(old(self)),
            final(self)@ == old(self)@,
            old(self).wf() ==> final(self).wf(),
            final(self).trace@ == old(self).trace@.push(
                Event::ConnectionClosed { peer: peer_id_text(*peer) },
            ),
    {
        self.network_actions_api.close_connection(peer);
        proof {
            self.trace@ = self.trace@.push(Event::ConnectionClosed { peer: peer_id_text(*peer) });
        }
    }

    /// Tells the node that `peer` has gone offline.
    fn notify_offline(&mut self, peer: &PeerId)
        ensures
            final(self).frame(old(self)),
            final(self).same_status(old(self)),
            final(self)@ == old(self)@,
            old(self).wf() ==> final(self).wf(),
            final(self).trace@ == old(self).trace@.push(
                Event::PeerOffline { peer: peer_id_text(*peer) },
            ),
    {
        self.network_actions_api.on_peer_offline(peer);
        proof {
            self.trace@ = self.trace@.push(Event::PeerOffline { peer: peer_id_text(*peer) });
        }
    }

    /// Tells the node that the health has changed.
    fn notify_health_change(&mut self, from: Health, to: Health)
        ensures
            final(self).frame(old(self)),
            final(self).same_status(old(self)),
            final(self)@ == old(self)@,
            old(self).wf() ==> final(self).wf(),
            final(self).trace@ == old(self).trace@.push(Event::HealthChanged { from, to }),
    {
        self.network_actions_api.on_network_health_change(from, to);
        proof {
            self.trace@ = self.trace@.push(Event::HealthChanged { from, to });
        }
    }

    /// Takes the peer `key` out of all four sets of the classification
    /// index. The other keys stay where they are, and so do the registry,
    /// the ignore list and the health; the node is not called.
    pub(crate) fn prune_from_network_status(&mut self, key: &String)
        requires
            old(self).parts_wf(),
        ensures
            final(self).parts_wf(),
            final(self).frame(old(self)),
            final(self)@ == old(self)@,
            final(self).trace() == old(self).trace(),
            final(self).index(true, true) == old(self).index(true, true).remove(key@),
            final(self).index(true, false) == old(self).index(true, false).remove(key@),
            final(self).index(false, true) == old(self).index(false, true).remove(key@),
            final(self).index(false, false) == old(self).index(false, false).remove(key@),
    {
        self.good_quality_public.remove(key);
        self.good_quality_non_public.remove(key);
        self.bad_quality_public.remove(key);
        self.bad_quality_non_public.remove(key);
    }

    /// Files the peer of `entry` under the class of `entry` and settles the
    /// health anew: the node hears of the health where it has changed, and
    /// only then. Returns what the node said of its own publicity, `false`
    /// where it was not asked.
    pub(crate) fn refresh_network_status(&mut self, entry: &PeerStatus, key: String) -> (own_public:
        bool)
        requires
            old(self).parts_wf(),
            key@ == entry.key(),
        ensures
            final(self).parts_wf(),
            final(self).frame(old(self)),
            final(self)@ == (NetworkModel { health: final(self)@.health, ..old(self)@ }),
            final(self).index(true, true) == filed(
                old(self).index(true, true),
                key@,
                entry.is_good(old(self)@.cfg) && entry.is_public,
            ),
            final(self).index(true, false) == filed(
                old(self).index(true, false),
                key@,
                entry.is_good(old(self)@.cfg) && !entry.is_public,
            ),
            final(self).index(false, true) == filed(
                old(self).index(false, true),
                key@,
                !entry.is_good(old(self)@.cfg) && entry.is_public,
            ),
            final(self).index(false, false) == filed(
                old(self).index(false, false),
                key@,
                !entry.is_good(old(self)@.cfg) && !entry.is_public,
            ),
            final(self)@.health == network_health(
                !final(self).index(false, true).is_empty(),
                !final(self).index(true, true).is_empty(),
                !final(self).index(true, false).is_empty(),
                own_public,
            ),
            final(self).trace() == old(self).trace() + health_events(
                old(self)@.me,
                health_needs_own_publicity(
                    !final(self).index(true, true).is_empty(),
                    !final(self).index(true, false).is_empty(),
                ),
                own_public,
                old(self)@.health,
                final(self)@.health,
            ),
    {
        self.prune_from_network_status(&key);

        if entry.quality < self.cfg.quality_offline_threshold {
            if entry.is_public {
                self.bad_quality_public.insert(key);
            } else {
                self.bad_quality_non_public.insert(key);
            }
        } else {
            if entry.is_public {
                self.good_quality_public.insert(key);
            } else {
                self.good_quality_non_public.insert(key);
            }
        }
        proof {
            lemma_insert_after_remove(old(self).index(true, true), key@);
            lemma_insert_after_remove(old(self).index(true, false), key@);
            lemma_insert_after_remove(old(self).index(false, true), key@);
            lemma_insert_after_remove(old(self).index(false, false), key@);
        }

        let good_public = !self.good_quality_public.is_empty();
        let good_non_public = !self.good_quality_non_public.is_empty();
        let bad_public = !self.bad_quality_public.is_empty();
        let ghost before = self.trace@;
        let own_public = if good_public && !good_non_public {
            let me = self.me;
            self.ask_public(&me)
        } else {
            false
        };
        let health = assess(bad_public, good_public, good_non_public, own_public);

        let last_health = self.last_health;
        if health != last_health {
            self.notify_health_change(last_health, health);
            self.last_health = health;
        }
        assert(self.trace@ =~= before + health_events(
            peer_id_text(old(self).me),
            health_needs_own_publicity(good_public, good_non_public),
            own_public,
            old(self).last_health,
            health,
        ));
        own_public
    }

    /// Registers the peer of `entry`, whose key is `id`, behind the others and
    /// settles the classification and the health. Returns what the node said
    /// of its own publicity, `false` where it was not asked.
    fn enroll(&mut self, id: String, entry: PeerStatus) -> (own_public: bool)
        requires
            old(self).wf(),
            entry.key() == id@,
            entry.quality <= UNIT,
            id@ != old(self)@.me,
            !old(self)@.has(id@),
        ensures
            final(self).wf(),
            final(self)@ == (NetworkModel {
                peers: old(self)@.peers.push(entry),
                ..old(self)@
            }).refreshed(own_public),
            final(self).trace@ == old(self).trace@ + (NetworkModel {
                peers: old(self)@.peers.push(entry),
                ..old(self)@
            }).refresh_events(own_public),
    {
        let ghost before = old(self)@;
        let own_public = self.refresh_network_status(&entry, id.clone());
        self.entries.push(id, entry);
        proof {
            lemma_keys_push(before.peers, entry);
            let keys = self.entries.keys();
            assert forall|k: int| 0 <= k < keys.len() implies keys[k] != before.me by {
                if k < before.keys().len() {
                    assert(keys[k] == before.keys()[k]);
                }
            }
            lemma_classified_push(before.peers, before.cfg, entry, true, true);
            lemma_classified_push(before.peers, before.cfg, entry, true, false);
            lemma_classified_push(before.peers, before.cfg, entry, false, true);
            lemma_classified_push(before.peers, before.cfg, entry, false, false);
        }
        own_public
    }

    /// Registers `peer` at the time `now`, unless it is this node, registered
    /// already, or on the ignore list for no longer than `ignore_timeframe`.
    /// The node is asked whether a peer that is registered is public.
    pub fn add_at(&mut self, peer: &PeerId, origin: PeerOrigin, now: u64)
        requires
            old(self).wf(),
        ensures
            final(self).wf(),
            exists|public: bool, own_public: bool|
                {
                    &&& final(self)@ == #[trigger] old(self)@.after_add(
                        *peer,
                        origin,
                        public,
                        own_public,
                        now,
                    )
                    &&& final(self).trace() == old(self).trace() + old(self)@.add_events(
                        *peer,
                        origin,
                        public,
                        own_public,
                        now,
                    )
                },
    {
        let id = peer_text(peer);

        let has_entry = self.entries.find(&id).is_some();
        let is_excluded = !has_entry && self.excluded.contains(&id);

        if !is_excluded {
            let is_ignored = if !has_entry {
                match self.ignored.get(&id) {
                    Some(timestamp) => {
                        if now > timestamp && now - timestamp > self.cfg.ignore_timeframe {
                            self.ignored.remove(&id);
                            false
                        } else {
                            true
                        }
                    },
                    None => false,
                }
            } else {
                false
            };

            if !has_entry && !is_ignored {
                let ghost cleared = self@;
                assert(self.ignored@ =~= old(self).ignored@.remove(id@));
                assert(cleared == (NetworkModel {
                    ignored: old(self)@.ignored.remove(id@),
                    ..old(self)@
                }));
                let mut entry = PeerStatus::new(*peer, origin, self.cfg.backoff_min);
                entry.is_public = self.ask_public(peer);
                let own_public = self.enroll(id, entry);
                proof {
                    let before = old(self)@;
                    let public = entry.is_public;
                    assert(before.admits(peer_id_text(*peer), now));
                    assert(entry == before.newcomer(*peer, origin, public));
                    assert(self@ == before.after_add(*peer, origin, public, own_public, now));
                    assert(self.trace@ =~= old(self).trace@ + before.add_events(
                        *peer,
                        origin,
                        public,
                        own_public,
                        now,
                    ));
                }
                return ;
            }
        }
        proof {
            let before = old(self)@;
            assert(!before.admits(id@, now));
            assert(self@ == before.after_add(*peer, origin, false, false, now));
            assert(self.trace@ =~= old(self).trace@ + before.add_events(
                *peer,
                origin,
                false,
                false,
                now,
            ));
        }
    }

    /// Registers `peer` as `add_at` does, at the time that the clock shows.
    pub fn add(&mut self, peer: &PeerId, origin: PeerOrigin)
        requires
            old(self).wf(),
        ensures
            final(self).wf(),
            exists|public: bool, own_public: bool, now: u64|
                {
                    &&& final(self)@ == #[trigger] old(self)@.after_add(
                        *peer,
                        origin,
                        public,
                        own_public,
                        now,
                    )
                    &&& final(self).trace() == old(self).trace() + old(self)@.add_events(
                        *peer,
                        origin,
                        public,
                        own_public,
                        now,
                    )
                },
    {
        let now = current_timestamp();
        self.add_at(peer, origin, now)
    }

    /// Drops `peer` from the registry and from the classification index. The health stays.
    pub fn remove(&mut self, peer: &PeerId)
        requires
            old(self).wf(),
        ensures
            final(self).wf(),
            final(self)@ == old(self)@.after_remove(peer_id_text(*peer)),
            final(self).trace() == old(self).trace(),
    {
        let id = peer_text(peer);
        self.prune_from_network_status(&id);
        match self.entries.find(&id) {
            Some(at) => {
                self.entries.remove_at(at);
                proof {
                    let before = old(self)@;
                    lemma_position(before.keys(), at as int);
                    lemma_keys_remove(before.peers, at as int);
                    lemma_classified_remove(before.peers, before.cfg, at as int, true, true);
                    lemma_classified_remove(before.peers, before.cfg, at as int, true, false);
                    lemma_classified_remove(before.peers, before.cfg, at as int, false, true);
                    lemma_classified_remove(before.peers, before.cfg, at as int, false, false);
                }
            },
            None => {
                proof {
                    let before = old(self)@;
                    lemma_unregistered_is_unclassified(before.peers, before.cfg, id@, true, true);
                    lemma_unregistered_is_unclassified(before.peers, before.cfg, id@, true, false);
                    lemma_unregistered_is_unclassified(before.peers, before.cfg, id@, false, true);
                    lemma_unregistered_is_unclassified(before.peers, before.cfg, id@, false, false);
                }
            },
        }
    }

    /// Drops the peer at the position `at`, whose key is `id`: its connection
    /// is closed, and it goes from the index and the registry on to the
    /// ignore list. The health stays.
    fn evict(&mut self, at: usize, id: String, now: u64)
        requires
            old(self).wf(),
            at < old(self)@.peers.len(),
            old(self)@.peers[at as int].key() == id@,
        ensures
            final(self).wf(),
            final(self)@ == (NetworkModel {
                peers: old(self)@.peers.remove(at as int),
                ignored: old(self)@.ignored.insert(id@, now),
                ..old(self)@
            }),
            final(self).trace@ == old(self).trace@.push(Event::ConnectionClosed { peer: id@ }),
    {
        let ghost before = old(self)@;
        let peer = self.entries.value_at(at).id;
        self.close_connection(&peer);
        self.prune_from_network_status(&id);
        self.entries.remove_at(at);
        self.ignored.insert(id, now);
        proof {
            lemma_keys_remove(before.peers, at as int);
            assert(before.keys()[at as int] == id@);
            assert forall|k: int| 0 <= k < self.entries.keys().len() implies self.entries.keys()[k]
                != before.me by {
                let k0 = if k < at { k } else { k + 1 };
                assert(self.entries.keys()[k] == before.keys()[k0]);
            }
            lemma_classified_remove(before.peers, before.cfg, at as int, true, true);
            lemma_classified_remove(before.peers, before.cfg, at as int, true, false);
            lemma_classified_remove(before.peers, before.cfg, at as int, false, true);
            lemma_classified_remove(before.peers, before.cfg, at as int, false, false);
        }
    }

    /// Puts `entry` in the place of the record at the position `at`, whose
    /// key is `id`, and settles the classification and the health. Returns
    /// what the node said of its own publicity, `false` where it was not asked.
    fn store(&mut self, at: usize, entry: PeerStatus, id: String) -> (own_public: bool)
        requires
            old(self).wf(),
            at < old(self)@.peers.len(),
            old(self)@.peers[at as int].key() == id@,
            entry.key() == id@,
            entry.quality <= UNIT,
        ensures
            final(self).wf(),
            final(self)@ == (NetworkModel {
                peers: old(self)@.peers.update(at as int, entry),
                ..old(self)@
            }).refreshed(own_public),
            final(self).trace@ == old(self).trace@ + (NetworkModel {
                peers: old(self)@.peers.update(at as int, entry),
                ..old(self)@
            }).refresh_events(own_public),
    {
        let ghost before = old(self)@;
        let own_public = self.refresh_network_status(&entry, id);
        self.entries.set_value(at, entry);
        proof {
            lemma_keys_replace(before.peers, at as int, entry);
            lemma_classified_replace(before.peers, before.cfg, at as int, entry, true, true);
            lemma_classified_replace(before.peers, before.cfg, at as int, entry, true, false);
            lemma_classified_replace(before.peers, before.cfg, at as int, entry, false, true);
            lemma_classified_replace(before.peers, before.cfg, at as int, entry, false, false);
        }
        own_public
    }

    /// Puts the peer `id` on the ignore list as of `now`.
    fn ignore(&mut self, id: String, now: u64)
        requires
            old(self).wf(),
        ensures
            final(self).wf(),
            final(self)@ == (NetworkModel {
                ignored: old(self)@.ignored.insert(id@, now),
                ..old(self)@
            }),
            final(self).trace@ == old(self).trace@,
    {
        self.ignored.insert(id, now);
    }

    /// Records the outcome of a probe of the peer at the position `at`,
    /// whose key is `id` and of which the node has said whether it is public.
    /// Returns what the node said of its own publicity, `false` where it was
    /// not asked.
    fn record_outcome(
        &mut self,
        at: usize,
        id: String,
        public: bool,
        ping_result: Result<u64, ()>,
        now: u64,
    ) -> (own_public: bool)
        requires
            old(self).wf(),
            old(self)@.has(id@),
            at == old(self)@.position(id@),
        ensures
            final(self).wf(),
            old(self)@.evicts(id@, ping_result) ==> final(self)@ == old(self)@.evicted(id@, now)
                && final(self).trace@ == old(self).trace@.push(
                Event::ConnectionClosed { peer: id@ },
            ),
            !old(self)@.evicts(id@, ping_result) ==> final(self)@ == old(self)@.kept(
                id@,
                ping_result,
                public,
                now,
            ).refreshed(own_public) && final(self).trace@ == old(self).trace@ + old(
                self,
            )@.offline_events(id@, ping_result, public) + old(self)@.kept(
                id@,
                ping_result,
                public,
                now,
            ).refresh_events(own_public),
    {
        let ghost before = old(self)@;
        proof {
            assert(before.keys()[at as int] == id@);
            assert(before.peers[at as int].key() == id@);
        }
        let existing = self.entries.value_at(at);
        match ping_result {
            Err(_) => {
                let entry = existing.failed(&self.cfg, public);
                assert(entry == before.probed(id@, ping_result, public));
                assert(entry.quality == before.probed(id@, ping_result, false).quality);
                match judge_failure(&self.cfg, entry.quality) {
                    FailureVerdict::Evict => {
                        self.evict(at, id, now);
                        false
                    },
                    FailureVerdict::Ignore => {
                        self.ignore(id.clone(), now);
                        self.store(at, entry, id)
                    },
                    FailureVerdict::Offline => {
                        self.notify_offline(&entry.id);
                        assert(self.trace@ =~= old(self).trace@ + before.offline_events(
                            id@,
                            ping_result,
                            public,
                        ));
                        self.store(at, entry, id)
                    },
                    FailureVerdict::Retain => self.store(at, entry, id),
                }
            },
            Ok(seen) => {
                let entry = existing.succeeded(&self.cfg, seen, public);
                assert(entry == before.probed(id@, ping_result, public));
                self.store(at, entry, id)
            },
        }
    }

    /// Records the outcome of a probe of `peer` that ended at the time `now`:
    /// `Ok` with the time at which the peer answered, or `Err`. An
    /// unregistered peer is left alone. Else the node is asked whether the
    /// peer is public; it is told to close the connection to a peer that is
    /// evicted, and that a peer is offline whose quality a failed probe has
    /// left between the bad and the offline threshold.
    pub fn update_at(&mut self, peer: &PeerId, ping_result: Result<u64, ()>, now: u64)
        requires
            old(self).wf(),
        ensures
            final(self).wf(),
            exists|public: bool, own_public: bool|
                {
                    &&& final(self)@ == #[trigger] old(self)@.after_update(
                        peer_id_text(*peer),
                        ping_result,
                        public,
                        own_public,
                        now,
                    )
                    &&& final(self).trace() == old(self).trace() + old(self)@.update_events(
                        peer_id_text(*peer),
                        ping_result,
                        public,
                        own_public,
                        now,
                    )
                },
    {
        let id = peer_text(peer);
        let ghost before = old(self)@;
        let ghost key = peer_id_text(*peer);
        match self.entries.find(&id) {
            Some(at) => {
                proof {
                    lemma_position(before.keys(), at as int);
                }
                let public = self.ask_public(peer);
                let own_public = self.record_outcome(at, id, public, ping_result, now);
                proof {
                    if before.evicts(key, ping_result) {
                        assert(old(self).trace@.push(
                            Event::PublicityAsked { peer: key, answer: public },
                        ).push(Event::ConnectionClosed { peer: key }) =~= old(self).trace@ + seq![
                            Event::PublicityAsked { peer: key, answer: public },
                            Event::ConnectionClosed { peer: key },
                        ]);
                    } else {
                        let offline = before.offline_events(key, ping_result, public);
                        let settled = before.kept(key, ping_result, public, now).refresh_events(
                            own_public,
                        );
                        assert(old(self).trace@.push(
                            Event::PublicityAsked { peer: key, answer: public },
                        ) + offline + settled =~= old(self).trace@ + (seq![
                            Event::PublicityAsked { peer: key, answer: public },
                        ] + offline + settled));
                    }
                    assert(self@ == before.after_update(key, ping_result, public, own_public, now));
                    assert(self.trace@ == old(self).trace@ + before.update_events(
                        key,
                        ping_result,
                        public,
                        own_public,
                        now,
                    ));
                }
            },
            None => {
                proof {
                    assert(old(self).trace@ + Seq::<Event>::empty() =~= old(self).trace@);
                    assert(self@ == before.after_update(key, ping_result, false, false, now));
                    assert(self.trace@ == old(self).trace@ + before.update_events(
                        key,
                        ping_result,
                        false,
                        false,
                        now,
                    ));
                }
            },
        }
    }

    /// Records the outcome of a probe of `peer` as `update_at` does, at the
    /// time that the clock shows.
    pub fn update(&mut self, peer: &PeerId, ping_result: Result<u64, ()>)
        requires
            old(self).wf(),
        ensures
            final(self).wf(),
            exists|public: bool, own_public: bool, now: u64|
                {
                    &&& final(self)@ == #[trigger] old(self)@.after_update(
                        peer_id_text(*peer),
                        ping_result,
                        public,
                        own_public,
                        now,
                    )
                    &&& final(self).trace() == old(self).trace() + old(self)@.update_events(
                        peer_id_text(*peer),
                        ping_result,
                        public,
                        own_public,
                        now,
                    )
                },
    {
        let now = current_timestamp();
        self.update_at(peer, ping_result, now)
    }

    /// A copy of the record of `peer`, if it is registered.
    pub fn get_peer_status(&self, peer: &PeerId) -> (status: Option<PeerStatus>)
        requires
            self.wf(),
        ensures
            status == self@.status(peer_id_text(*peer)),
            status matches Some(record) ==> record.quality <= UNIT,
    {
        let id = peer_text(peer);
        match self.entries.find(&id) {
            Some(at) => {
                proof {
                    lemma_position(self@.keys(), at as int);
                }
                Some(self.entries.value_at(at))
            },
            None => None,
        }
    }

    /// The identifiers of the registered peers whose record `f` accepts, in
    /// the order of their registration.
    pub fn filter<F>(&self, f: F) -> (ids: Vec<PeerId>) where F: Fn(&&PeerStatus) -> bool
        requires
            self.wf(),
            forall|i: int| 0 <= i < self@.peers.len() ==> call_requires(f, (&&self@.peers[i],)),
        ensures
            exists|verdicts: Seq<bool>|
                {
                    &&& verdicts.len() == self@.peers.len()
                    &&& forall|i: int|
                        0 <= i < verdicts.len() ==> call_ensures(
                            f,
                            (&&self@.peers[i],),
                            #[trigger] verdicts[i],
                        )
                    &&& ids@ == chosen_ids(self@.peers, verdicts)
                },
    {
        let mut ids: Vec<PeerId> = Vec::new();
        let ghost mut verdicts: Seq<bool> = Seq::empty();
        let n = self.entries.len();
        let mut i: usize = 0;
        while i < n
            invariant
                self.wf(),
                n == self@.peers.len(),
                i <= n,
                forall|k: int| 0 <= k < self@.peers.len() ==> call_requires(f, (&&self@.peers[k],)),
                verdicts.len() == i,
                forall|k: int|
                    0 <= k < i ==> call_ensures(f, (&&self@.peers[k],), #[trigger] verdicts[k]),
                ids@ == chosen_ids(self@.peers.take(i as int), verdicts),
            decreases n - i,
        {
            let entry = self.entries.value_at(i);
            let accepted = f(&&entry);
            proof {
                let seen = self@.peers.take(i as int + 1);
                assert(seen.drop_last() =~= self@.peers.take(i as int));
                assert(verdicts.push(accepted).drop_last() =~= verdicts);
                verdicts = verdicts.push(accepted);
            }
            if accepted {
                ids.push(entry.id);
            }
            i += 1;
        }
        proof {
            assert(self@.peers.take(n as int) =~= self@.peers);
        }
        ids
    }

    /// The identifiers of the peers whose next probe is due before
    /// `threshold`: those with `last_seen` plus their delay below it. The
    /// peer that was seen longest ago comes first; of two that were seen at
    /// the same time the one that was registered earlier comes first.
    pub fn find_peers_to_ping(&self, threshold: u64) -> (ids: Vec<PeerId>)
        requires
            self.wf(),
        ensures
            ids@ == ids_of(due_queue(self@.peers, self@.cfg, threshold)),
    {
        let mut queue: Vec<PeerStatus> = Vec::new();
        let n = self.entries.len();
        let mut i: usize = 0;
        while i < n
            invariant
                self.wf(),
                n == self@.peers.len(),
                i <= n,
                queue@ == due_queue(self@.peers.take(i as int), self@.cfg, threshold),
            decreases n - i,
        {
            let entry = self.entries.value_at(i);
            proof {
                assert(self@.peers.take(i as int + 1).drop_last() =~= self@.peers.take(i as int));
            }
            if entry.due(&self.cfg, threshold) {
                let mut at: usize = queue.len();
                while at > 0 && queue[at - 1].last_seen > entry.last_seen
                    invariant
                        at <= queue.len(),
                        forall|k: int| at <= k < queue.len() ==> queue[k].last_seen > entry.last_seen,
                    decreases at,
                {
                    at -= 1;
                }
                proof {
                    lemma_queued_at(queue@, entry, at as int);
                }
                queue.insert(at, entry);
            }
            i += 1;
        }
        proof {
            assert(self@.peers.take(n as int) =~= self@.peers);
        }

        let mut ids: Vec<PeerId> = Vec::new();
        let mut k: usize = 0;
        while k < queue.len()
            invariant
                k <= queue.len(),
                ids@ == ids_of(queue@.take(k as int)),
            decreases queue.len() - k,
        {
            ids.push(queue[k].id);
            proof {
                assert(ids_of(queue@.take(k as int + 1)) =~= ids_of(queue@.take(k as int)).push(
                    queue@[k as int].id,
                ));
            }
            k += 1;
        }
        proof {
            assert(queue@.take(queue.len() as int) =~= queue@);
        }
        ids
    }

    /// One line for each registered peer, in the order of their registration.
    pub fn debug_output(&self) -> (output: String)
        requires
            self.wf(),
        ensures
            output@ == lines_of(self@.peers),
    {
        let mut output = String::new();
        let n = self.entries.len();
        let mut i: usize = 0;
        while i < n
            invariant
                self.wf(),
                n == self@.peers.len(),
                i <= n,
                output@ == lines_of(self@.peers.take(i as int)),
            decreases n - i,
        {
            let entry = self.entries.value_at(i);
            proof {
                assert(self@.peers.take(i as int + 1).drop_last() =~= self@.peers.take(i as int));
                reveal_strlit("\n");
            }
            entry.push_line(&mut output);
            output.append("\n");
            assert(output@ =~= lines_of(self@.peers.take(i as int)) + entry.line() + seq!['\n']);
            i += 1;
        }
        proof {
            assert(self@.peers.take(n as int) =~= self@.peers);
        }
        output
    }

    /// What the gauges of the network show: the number of registered peers,
    /// the number of peers in each class, and the rank of the health.
    pub fn metrics(&self) -> (gauges: NetworkMetrics)
        requires
            self.wf(),
        ensures
            gauges.peer_count == self@.peers.len(),
            gauges.public_high == self@.bucket(true, true).len(),
            gauges.public_low == self@.bucket(false, true).len(),
            gauges.non_public_high == self@.bucket(true, false).len(),
            gauges.non_public_low == self@.bucket(false, false).len(),
            gauges.health == self@.health.rank(),
    {
        NetworkMetrics {
            peer_count: self.entries.len(),
            public_high: self.good_quality_public.len(),
            public_low: self.bad_quality_public.len(),
            non_public_high: self.good_quality_non_public.len(),
            non_public_low: self.bad_quality_non_public.len(),
            health: self.last_health.scalar(),
        }
    }
}

} // verus!
