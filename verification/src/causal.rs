//! The counters that a battle keeps about how it went.

use vstd::prelude::*;

verus! {

/// Aggregate counters of one battle. They start at zero, grow while rounds
/// run, and are completed when the battle is summed up.
///
/// The mean damage dealt by a member of the group is
/// `group_total_damage / group_size`, and zero for an empty group; the two
/// terms are kept exactly.
#[derive(Debug, Clone, Copy, PartialEq, Eq, Structural)]
pub struct CausalMetrics {
    /// Critical blows landed by either side.
    pub total_critical_hits: u32,
    /// Damage dealt by all members of the group together.
    pub group_total_damage: u64,
    /// Number of members of the group, living or dead.
    pub group_size: usize,
    /// The most damage dealt by one member of the group.
    pub max_group_damage: u32,
    /// Health left to the solitary fighter, zero when it is used up.
    pub solo_end_hp: u32,
    /// Rounds in which damage was dealt.
    pub rounds_engaged: u32,
    /// Whether the last fatal blow was dealt by the solitary side.
    pub solo_final_blow: bool,
}

impl CausalMetrics {
    /// The counters of a battle that has not begun: all zero, no fatal blow
    /// marked.
    pub open spec fn blank() -> CausalMetrics {
        CausalMetrics {
            total_critical_hits: 0,
            group_total_damage: 0,
            group_size: 0,
            max_group_damage: 0,
            solo_end_hp: 0,
            rounds_engaged: 0,
            solo_final_blow: false,
        }
    }

    /// The counters of a battle that has not begun.
    pub fn new() -> (metrics: CausalMetrics)
        ensures
            metrics == CausalMetrics::blank(),
    {
        CausalMetrics {
            total_critical_hits: 0,
            group_total_damage: 0,
            group_size: 0,
            max_group_damage: 0,
            solo_end_hp: 0,
            rounds_engaged: 0,
            solo_final_blow: false,
        }
    }

    /// The mean damage dealt by a member of the group, as its whole part and
    /// what is left over: `group_total_damage` divided by `group_size`, with
    /// remainder. An empty group has a mean of zero.
    pub fn group_avg_damage(&self) -> (mean: (u64, u64))
        ensures
            self.group_size == 0 ==> mean == (0u64, 0u64),
            self.group_size > 0 ==> mean.0 == self.group_total_damage / (self.group_size as u64)
                && mean.1 == self.group_total_damage % (self.group_size as u64),
    {
        if self.group_size == 0 {
            (0, 0)
        } else {
            let size = self.group_size as u64;
            (self.group_total_damage / size, self.group_total_damage % size)
        }
    }
}

} // verus!
