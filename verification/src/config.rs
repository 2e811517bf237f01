//! The constants of one network instance.
use vstd::prelude::*;

verus! {

/// How many thousandths make up one whole: the qualities and backoffs are counted in them.
pub const UNIT: u64 = 1000;

/// What the tracking goes by. Delays and time frames are milliseconds,
/// qualities and backoffs are thousandths. A backoff grows by the power
/// three halves.
#[derive(Debug, Copy, Clone, PartialEq, Eq, Structural)]
pub struct NetworkConfig {
    /// The shortest delay between two probes; the backoff multiplies it.
    pub min_delay: u64,
    /// The longest delay between two probes.
    pub max_delay: u64,
    /// Below this quality a peer is put on the ignore list.
    pub quality_bad_threshold: u64,
    /// Below this quality a peer counts as offline.
    pub quality_offline_threshold: u64,
    /// By how much one probe moves the quality.
    pub quality_step: u64,
    /// For how long an ignored peer is not admitted again.
    pub ignore_timeframe: u64,
    /// The backoff of a peer that answered.
    pub backoff_min: u64,
    /// The least backoff of a peer that failed to answer.
    pub backoff_max: u64,
}

impl NetworkConfig {
    /// The values that `default` gives.
    pub open spec fn standard() -> NetworkConfig {
        NetworkConfig {
            min_delay: 1000,
            max_delay: 300_000,
            quality_bad_threshold: 200,
            quality_offline_threshold: 500,
            quality_step: 100,
            ignore_timeframe: 600_000,
            backoff_min: 2000,
            backoff_max: 300_000,
        }
    }

    /// The bad threshold lies below the offline threshold.
    pub open spec fn wf(&self) -> bool {
        self.quality_bad_threshold < self.quality_offline_threshold
    }
}

impl Default for NetworkConfig {
    fn default() -> (cfg: Self)
        ensures
            cfg == NetworkConfig::standard(),
            cfg.wf(),
    {
        let min_delay_in_s: u64 = 1;
        let max_delay_in_s: u64 = 300;
        NetworkConfig {
            min_delay: min_delay_in_s * 1000,
            max_delay: max_delay_in_s * 1000,  // 5 minutes
            quality_bad_threshold: 200,
            quality_offline_threshold: 500,
            quality_step: 100,
            ignore_timeframe: 600_000,  // 10 minutes
            backoff_min: 2 * UNIT,
            backoff_max: max_delay_in_s / min_delay_in_s * UNIT,
        }
    }
}

} // verus!
