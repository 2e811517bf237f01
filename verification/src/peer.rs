//! Peer identifiers, which are libp2p's, and the text that stands for one.
use libp2p::PeerId;
use vstd::prelude::*;

verus! {

/// `libp2p::PeerId` as an opaque value. The network keeps such values,
/// copies them and hands them on; it tells two peers apart by their text.
#[verifier::external_type_specification]
#[verifier::external_body]
pub struct ExPeerId(PeerId);

/// The base-58 text of a peer identifier: what `PeerId::to_base58` returns
/// for it, which is also how the identifier is displayed. The text is made
/// from the bytes of the identifier alone.
pub uninterp spec fn peer_id_text(peer: PeerId) -> Seq<char>;

/// Calls `PeerId::to_base58`. The contract is not proved: it says that the
/// call returns the base-58 text of `peer`, the same for the same identifier.
#[verifier::external_body]
pub(crate) fn peer_text(peer: &PeerId) -> (text: String)
    ensures
        text@ == peer_id_text(*peer),
{
    peer.to_base58()
}

} // verus!
