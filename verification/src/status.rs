//! What is known of one peer, and how a probe changes it.
use crate::config::{NetworkConfig, UNIT};
use crate::fixed::{delay_for, probe_delay, raise, raised};
use crate::origin::PeerOrigin;
use crate::peer::{peer_id_text, peer_text};
use crate::text::{decimal, fixed_decimal, push_decimal, push_fixed};
use libp2p::PeerId;
use vstd::prelude::*;
use vstd::string::*;

verus! {

/// The record of one peer.
#[derive(Debug, Clone, Copy, PartialEq)]
pub struct PeerStatus {
    pub id: PeerId,
    pub origin: PeerOrigin,
    pub is_public: bool,
    /// When the peer last answered, 0 before its first answer.
    pub last_seen: u64,
    /// The share of probes that the peer is expected to answer, in thousandths.
    pub quality: u64,
    pub heartbeats_sent: u64,
    pub heartbeats_succeeded: u64,
    /// By how much the delay before the next probe is stretched, in thousandths.
    pub backoff: u64,
}

/// What follows from a failed probe, by the quality that it left.
#[derive(Debug, Clone, Copy, PartialEq, Eq, Structural)]
pub enum FailureVerdict {
    /// The peer is dropped from the network and its connection is closed.
    Evict,
    /// The peer stays, and is put on the ignore list.
    Ignore,
    /// The peer stays, and is reported as offline.
    Offline,
    /// The peer stays.
    Retain,
}

/// A counter one higher, unless it is full.
pub open spec fn bumped(n: u64) -> u64 {
    if n < u64::MAX {
        (n + 1) as u64
    } else {
        n
    }
}

/// The verdict on a peer whose quality a failed probe has left at `quality`.
pub open spec fn failure_verdict(cfg: NetworkConfig, quality: u64) -> FailureVerdict {
    if 2 * quality < cfg.quality_step {
        FailureVerdict::Evict
    } else if quality < cfg.quality_bad_threshold {
        FailureVerdict::Ignore
    } else if quality < cfg.quality_offline_threshold {
        FailureVerdict::Offline
    } else {
        FailureVerdict::Retain
    }
}

/// Decides what follows from a failed probe: eviction below half a quality
/// step, else the ignore list below the bad threshold, else a report below
/// the offline threshold.
pub fn judge_failure(cfg: &NetworkConfig, quality: u64) -> (verdict: FailureVerdict)
    ensures
        verdict == failure_verdict(*cfg, quality),
{
    if quality < cfg.quality_step - cfg.quality_step / 2 {
        FailureVerdict::Evict
    } else if quality < cfg.quality_bad_threshold {
        FailureVerdict::Ignore
    } else if quality < cfg.quality_offline_threshold {
        FailureVerdict::Offline
    } else {
        FailureVerdict::Retain
    }
}

impl PeerStatus {
    /// The text that stands for the peer.
    pub open spec fn key(&self) -> Seq<char> {
        peer_id_text(self.id)
    }

    /// The record of a peer that has not been probed yet.
    pub open spec fn fresh(id: PeerId, origin: PeerOrigin, backoff: u64) -> PeerStatus {
        PeerStatus {
            id,
            origin,
            is_public: false,
            last_seen: 0,
            quality: 0,
            heartbeats_sent: 0,
            heartbeats_succeeded: 0,
            backoff,
        }
    }

    /// The record after a probe that the peer answered at `seen`: the backoff
    /// is `backoff_min` again and the quality one step higher, at most one whole.
    pub open spec fn after_success(self, cfg: NetworkConfig, seen: u64, public: bool) -> PeerStatus {
        PeerStatus {
            is_public: public,
            last_seen: seen,
            quality: if self.quality + cfg.quality_step < UNIT {
                (self.quality + cfg.quality_step) as u64
            } else {
                UNIT
            },
            heartbeats_sent: bumped(self.heartbeats_sent),
            heartbeats_succeeded: bumped(self.heartbeats_succeeded),
            backoff: cfg.backoff_min,
            ..self
        }
    }

    /// The record after a probe that the peer did not answer: the backoff is
    /// the larger of `backoff_max` and its power three halves, and the quality
    /// one step lower, at least 0.
    pub open spec fn after_failure(self, cfg: NetworkConfig, public: bool) -> PeerStatus {
        PeerStatus {
            is_public: public,
            quality: if self.quality > cfg.quality_step {
                (self.quality - cfg.quality_step) as u64
            } else {
                0
            },
            heartbeats_sent: bumped(self.heartbeats_sent),
            backoff: if raised(self.backoff as nat) > cfg.backoff_max {
                raised(self.backoff as nat) as u64
            } else {
                cfg.backoff_max
            },
            ..self
        }
    }

    /// Whether the quality reaches the offline threshold.
    pub open spec fn is_good(self, cfg: NetworkConfig) -> bool {
        self.quality >= cfg.quality_offline_threshold
    }

    /// Whether the next probe of the peer is due before `threshold`.
    pub open spec fn is_due(self, cfg: NetworkConfig, threshold: u64) -> bool {
        self.last_seen + probe_delay(
            cfg.min_delay as nat,
            cfg.max_delay as nat,
            self.backoff as nat,
        ) < threshold
    }

    /// The line that shows the record.
    pub open spec fn line(self) -> Seq<char> {
        "Entry: [id="@ + peer_id_text(self.id) + ", origin="@ + self.origin.description()
            + ", last seen on="@ + decimal(self.last_seen as nat) + ", quality="@ + fixed_decimal(
            self.quality as nat,
        ) + ", heartbeats sent="@ + decimal(self.heartbeats_sent as nat)
            + ", heartbeats succeeded="@ + decimal(self.heartbeats_succeeded as nat)
            + ", backoff="@ + fixed_decimal(self.backoff as nat) + "]"@
    }

    pub fn new(id: PeerId, origin: PeerOrigin, backoff: u64) -> (status: PeerStatus)
        ensures
            status == PeerStatus::fresh(id, origin, backoff),
    {
        PeerStatus {
            id,
            origin,
            is_public: false,
            heartbeats_sent: 0,
            heartbeats_succeeded: 0,
            last_seen: 0,
            backoff,
            quality: 0,
        }
    }

    /// Puts a record together from its parts.
    pub fn build(
        id: PeerId,
        origin: PeerOrigin,
        is_public: bool,
        last_seen: u64,
        quality: u64,
        heartbeats_sent: u64,
        heartbeats_succeeded: u64,
        backoff: u64,
    ) -> (status: PeerStatus)
        ensures
            status == (PeerStatus {
                id,
                origin,
                is_public,
                last_seen,
                quality,
                heartbeats_sent,
                heartbeats_succeeded,
                backoff,
            }),
    {
        PeerStatus {
            id,
            origin,
            is_public,
            last_seen,
            quality,
            heartbeats_sent,
            heartbeats_succeeded,
            backoff,
        }
    }

    /// The peer's identifier as base-58 text.
    pub fn peer_id(&self) -> (text: String)
        ensures
            text@ == self.key(),
    {
        peer_text(&self.id)
    }

    /// Records a probe that the peer answered at `seen`.
    pub fn succeeded(&self, cfg: &NetworkConfig, seen: u64, public: bool) -> (next: PeerStatus)
        ensures
            next == self.after_success(*cfg, seen, public),
    {
        let raised_quality = self.quality.saturating_add(cfg.quality_step);
        PeerStatus {
            id: self.id,
            origin: self.origin,
            is_public: public,
            last_seen: seen,
            quality: if raised_quality < UNIT {
                raised_quality
            } else {
                UNIT
            },
            heartbeats_sent: self.heartbeats_sent.saturating_add(1),
            heartbeats_succeeded: self.heartbeats_succeeded.saturating_add(1),
            backoff: cfg.backoff_min,
        }
    }

    /// Records a probe that the peer did not answer.
    pub fn failed(&self, cfg: &NetworkConfig, public: bool) -> (next: PeerStatus)
        ensures
            next == self.after_failure(*cfg, public),
    {
        let grown = raise(self.backoff);
        PeerStatus {
            id: self.id,
            origin: self.origin,
            is_public: public,
            last_seen: self.last_seen,
            quality: self.quality.saturating_sub(cfg.quality_step),
            heartbeats_sent: self.heartbeats_sent.saturating_add(1),
            heartbeats_succeeded: self.heartbeats_succeeded,
            backoff: if grown > cfg.backoff_max {
                grown
            } else {
                cfg.backoff_max
            },
        }
    }

    /// Tells whether the next probe of the peer is due before `threshold`.
    pub fn due(&self, cfg: &NetworkConfig, threshold: u64) -> (b: bool)
        ensures
            b == self.is_due(*cfg, threshold),
    {
        let delay = delay_for(cfg.min_delay, cfg.max_delay, self.backoff);
        match self.last_seen.checked_add(delay) {
            Some(at) => at < threshold,
            None => false,
        }
    }

    /// Appends the line that shows the record.
    pub fn push_line(&self, out: &mut String)
        ensures
            final(out)@ == old(out)@ + self.line(),
    {
        let id = peer_text(&self.id);
        out.append("Entry: [id=");
        out.append(id.as_str());
        out.append(", origin=");
        out.append(self.origin.as_str());
        out.append(", last seen on=");
        push_decimal(out, self.last_seen);
        out.append(", quality=");
        push_fixed(out, self.quality);
        out.append(", heartbeats sent=");
        push_decimal(out, self.heartbeats_sent);
        out.append(", heartbeats succeeded=");
        push_decimal(out, self.heartbeats_succeeded);
        out.append(", backoff=");
        push_fixed(out, self.backoff);
        out.append("]");
    }

    /// The line that shows the record.
    #[allow(clippy::inherent_to_string)]
    pub fn to_string(&self) -> (text: String)
        ensures
            text@ == self.line(),
    {
        let mut text = String::new();
        self.push_line(&mut text);
        text
    }
}

} // verus!
