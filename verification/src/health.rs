//! The aggregate health of the network as this node sees it.
use std::cmp::Ordering;
use vstd::prelude::*;
use vstd::std_specs::cmp::PartialOrdSpec;

verus! {

/// Network health, from worst to best.
#[allow(clippy::upper_case_acronyms)]
#[derive(Debug, Copy, Clone, PartialEq, Eq, Structural, Ord)]
pub enum Health {
    /// Nothing has been classified yet.
    UNKNOWN,
    /// No connection.
    RED,
    /// Low quality connection to at least one public relay.
    ORANGE,
    /// High quality connection to at least one public relay.
    YELLOW,
    /// High quality connection to at least one public relay and one node behind NAT.
    GREEN,
}

impl Health {
    /// The number that stands for a health value, 0 for `UNKNOWN` up to 4 for `GREEN`.
    pub open spec fn rank(self) -> int {
        match self {
            Health::UNKNOWN => 0,
            Health::RED => 1,
            Health::ORANGE => 2,
            Health::YELLOW => 3,
            Health::GREEN => 4,
        }
    }

    /// The name of a health value.
    pub open spec fn name(self) -> Seq<char> {
        match self {
            Health::UNKNOWN => "UNKNOWN"@,
            Health::RED => "RED"@,
            Health::ORANGE => "ORANGE"@,
            Health::YELLOW => "YELLOW"@,
            Health::GREEN => "GREEN"@,
        }
    }

    /// The rank as a number, the value that a gauge shows.
    pub fn scalar(&self) -> (v: u8)
        ensures
            v == self.rank(),
    {
        match self {
            Health::UNKNOWN => 0,
            Health::RED => 1,
            Health::ORANGE => 2,
            Health::YELLOW => 3,
            Health::GREEN => 4,
        }
    }

    /// The name as text.
    #[allow(clippy::inherent_to_string)]
    pub fn to_string(&self) -> (text: String)
        ensures
            text@ == self.name(),
    {
        match self {
            Health::UNKNOWN => "UNKNOWN".to_owned(),
            Health::RED => "RED".to_owned(),
            Health::ORANGE => "ORANGE".to_owned(),
            Health::YELLOW => "YELLOW".to_owned(),
            Health::GREEN => "GREEN".to_owned(),
        }
    }
}

impl PartialOrd for Health {
    fn partial_cmp(&self, other: &Self) -> (r: Option<Ordering>) {
        let a = self.scalar();
        let b = other.scalar();
        if a < b {
            Some(Ordering::Less)
        } else if a == b {
            Some(Ordering::Equal)
        } else {
            Some(Ordering::Greater)
        }
    }
}

impl vstd::std_specs::cmp::PartialOrdSpecImpl for Health {
    open spec fn obeys_partial_cmp_spec() -> bool {
        true
    }

    open spec fn partial_cmp_spec(&self, other: &Self) -> Option<Ordering> {
        if self.rank() < other.rank() {
            Some(Ordering::Less)
        } else if self.rank() == other.rank() {
            Some(Ordering::Equal)
        } else {
            Some(Ordering::Greater)
        }
    }
}

/// The health that a classification yields.
///
/// The default is `RED`. One public peer of low quality makes it `ORANGE`.
/// One public peer of high quality makes it `YELLOW`, or `GREEN` where a
/// peer behind NAT has high quality too or this node is public itself.
pub open spec fn network_health(
    bad_public: bool,
    good_public: bool,
    good_non_public: bool,
    own_public: bool,
) -> Health {
    if good_public {
        if good_non_public || own_public {
            Health::GREEN
        } else {
            Health::YELLOW
        }
    } else if bad_public {
        Health::ORANGE
    } else {
        Health::RED
    }
}

/// Whether the health depends on this node being public: only then is the node asked.
pub open spec fn health_needs_own_publicity(good_public: bool, good_non_public: bool) -> bool {
    good_public && !good_non_public
}

/// Settles the health from what the classification holds: whether there is
/// a public peer of low quality, one of high quality, a peer behind NAT of
/// high quality, and whether this node is public.
pub fn assess(
    bad_public: bool,
    good_public: bool,
    good_non_public: bool,
    own_public: bool,
) -> (health: Health)
    ensures
        health == network_health(bad_public, good_public, good_non_public, own_public),
{
    let mut health = Health::RED;

    if bad_public {
        health = Health::ORANGE;
    }

    if good_public {
        health = if good_non_public || own_public {
            Health::GREEN
        } else {
            Health::YELLOW
        };
    }

    health
}

/// The ranks order the health values: `UNKNOWN < RED < ORANGE < YELLOW < GREEN`,
/// and two values of one rank are the same value.
pub proof fn lemma_health_order(a: Health, b: Health)
    ensures
        Health::UNKNOWN.rank() < Health::RED.rank() < Health::ORANGE.rank() < Health::YELLOW.rank()
            < Health::GREEN.rank(),
        0 <= a.rank() <= 4,
        a.rank() == b.rank() <==> a == b,
        a.partial_cmp_spec(&b) == Some(Ordering::Less) <==> a.rank() < b.rank(),
{
}

} // verus!
