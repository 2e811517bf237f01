//! What the network asks of the node around it, and the record of what it asked.
use crate::health::Health;
use libp2p::PeerId;
use vstd::prelude::*;

verus! {

/// The effects that the network leaves to the node. The network calls them
/// in the course of `add` and `update`, in the order that the contracts of
/// those functions state, and takes each call to have done its work. An
/// implementation may not call back into the network.
pub trait NetworkExternalActions {
    /// Whether `peer` can be reached from the public internet.
    fn is_public(&self, peer: &PeerId) -> bool;

    /// Tears down the connection to `peer`.
    fn close_connection(&self, peer: &PeerId);

    /// Tells that `peer` has gone offline.
    fn on_peer_offline(&self, peer: &PeerId);

    /// Tells that the health of the network has changed from `old_health` to `new_health`.
    fn on_network_health_change(&self, old_health: Health, new_health: Health);
}

/// One call of an external action. A peer stands in it by its base-58 text.
pub enum Event {
    /// `is_public` was asked of `peer` and gave `answer`.
    PublicityAsked { peer: Seq<char>, answer: bool },
    /// `close_connection` was called for `peer`.
    ConnectionClosed { peer: Seq<char> },
    /// `on_peer_offline` was called for `peer`.
    PeerOffline { peer: Seq<char> },
    /// `on_network_health_change` was called with `from` and `to`.
    HealthChanged { from: Health, to: Health },
}

/// The calls that settling the health makes: the question whether this node
/// is public, where the health depends on it, and the report of a change,
/// where the health is no longer what it was.
pub open spec fn health_events(
    me: Seq<char>,
    asked: bool,
    own_public: bool,
    before: Health,
    after: Health,
) -> Seq<Event> {
    let question = if asked {
        seq![Event::PublicityAsked { peer: me, answer: own_public }]
    } else {
        Seq::<Event>::empty()
    };
    let report = if after != before {
        seq![Event::HealthChanged { from: before, to: after }]
    } else {
        Seq::<Event>::empty()
    };
    question + report
}

} // verus!
