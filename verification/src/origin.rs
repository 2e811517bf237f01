//! Why a peer became known.
use vstd::prelude::*;

verus! {

/// The reason for which a peer was first observed. It is kept and shown, and decides nothing.
#[derive(Debug, Copy, Clone, PartialEq, Eq, Structural)]
pub enum PeerOrigin {
    Initialization,
    NetworkRegistry,
    IncomingConnection,
    OutgoingConnection,
    StrategyExistingChannel,
    StrategyConsideringChannel,
    StrategyNewChannel,
    ManualPing,
    Testing,
}

impl PeerOrigin {
    /// The words that describe an origin.
    pub open spec fn description(self) -> Seq<char> {
        match self {
            PeerOrigin::Initialization => "node initialization"@,
            PeerOrigin::NetworkRegistry => "network registry"@,
            PeerOrigin::IncomingConnection => "incoming connection"@,
            PeerOrigin::OutgoingConnection => "outgoing connection attempt"@,
            PeerOrigin::StrategyExistingChannel => "strategy monitors existing channel"@,
            PeerOrigin::StrategyConsideringChannel => "strategy considers opening a channel"@,
            PeerOrigin::StrategyNewChannel => "strategy decided to open new channel"@,
            PeerOrigin::ManualPing => "manual ping"@,
            PeerOrigin::Testing => "testing"@,
        }
    }

    /// The description as static text.
    pub fn as_str(&self) -> (text: &'static str)
        ensures
            text@ == self.description(),
    {
        match self {
            PeerOrigin::Initialization => "node initialization",
            PeerOrigin::NetworkRegistry => "network registry",
            PeerOrigin::IncomingConnection => "incoming connection",
            PeerOrigin::OutgoingConnection => "outgoing connection attempt",
            PeerOrigin::StrategyExistingChannel => "strategy monitors existing channel",
            PeerOrigin::StrategyConsideringChannel => "strategy considers opening a channel",
            PeerOrigin::StrategyNewChannel => "strategy decided to open new channel",
            PeerOrigin::ManualPing => "manual ping",
            PeerOrigin::Testing => "testing",
        }
    }

    /// The description as text.
    #[allow(clippy::inherent_to_string)]
    pub fn to_string(&self) -> (text: String)
        ensures
            text@ == self.description(),
    {
        self.as_str().to_owned()
    }
}

} // verus!
