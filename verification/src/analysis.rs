//! Counts over the records of a batch of battles, from which averages and
//! rates are formed.

use crate::models::{BattleResult, Team};
use vstd::prelude::*;

verus! {

/// The counts over a batch of battles.
#[derive(Debug, Clone, Copy, PartialEq, Eq, Structural)]
pub struct BatchTally {
    /// Number of battles.
    pub battles: usize,
    /// Battles won by the group.
    pub group_wins: usize,
    /// Battles won by the solitary side.
    pub solo_wins: usize,
    /// Battles that the solitary side survived.
    pub solo_survivals: usize,
    /// Members of the group fallen in all battles together.
    pub casualties: u128,
    /// Rounds run in all battles together.
    pub rounds: u128,
}

/// How many of `results` were won by `team`.
pub open spec fn wins<C>(results: Seq<BattleResult<C>>, team: Team) -> int
    decreases results.len(),
{
    if results.len() == 0 {
        0
    } else {
        wins(results.drop_last(), team) + if results.last().winner == team {
            1int
        } else {
            0int
        }
    }
}

/// How many of `results` the solitary side survived.
pub open spec fn survivals<C>(results: Seq<BattleResult<C>>) -> int
    decreases results.len(),
{
    if results.len() == 0 {
        0
    } else {
        survivals(results.drop_last()) + if results.last().solo_survived {
            1int
        } else {
            0int
        }
    }
}

/// How many members of the group fell in `results` together.
pub open spec fn casualties_sum<C>(results: Seq<BattleResult<C>>) -> int
    decreases results.len(),
{
    if results.len() == 0 {
        0
    } else {
        casualties_sum(results.drop_last()) + results.last().group_casualties
    }
}

/// How many rounds were run in `results` together.
pub open spec fn rounds_sum<C>(results: Seq<BattleResult<C>>) -> int
    decreases results.len(),
{
    if results.len() == 0 {
        0
    } else {
        rounds_sum(results.drop_last()) + results.last().rounds
    }
}

/// Counts over the records of a batch: the battles, the wins of each side,
/// the survivals of the solitary side, and the sums of the casualties and
/// of the rounds.
pub fn tally_results<C>(results: &[BattleResult<C>]) -> (tally: BatchTally)
    ensures
        tally.battles == results@.len(),
        tally.group_wins == wins(results@, Team::Group),
        tally.solo_wins == wins(results@, Team::Solo),
        tally.solo_survivals == survivals(results@),
        tally.casualties == casualties_sum(results@),
        tally.rounds == rounds_sum(results@),
        tally.group_wins + tally.solo_wins == tally.battles,
{
    let mut group_wins: usize = 0;
    let mut solo_wins: usize = 0;
    let mut solo_survivals: usize = 0;
    let mut casualties: u128 = 0;
    let mut rounds: u128 = 0;
    let mut i: usize = 0;
    while i < results.len()
        invariant
            i <= results@.len(),
            group_wins == wins(results@.take(i as int), Team::Group),
            solo_wins == wins(results@.take(i as int), Team::Solo),
            solo_survivals == survivals(results@.take(i as int)),
            casualties == casualties_sum(results@.take(i as int)),
            rounds == rounds_sum(results@.take(i as int)),
            group_wins + solo_wins == i,
            solo_survivals <= i,
            casualties <= i * u32::MAX,
            rounds <= i * u32::MAX,
        decreases results@.len() - i,
    {
        proof {
            assert(results@.take(i as int + 1).drop_last() =~= results@.take(i as int));
        }
        let result = &results[i];
        match result.winner {
            Team::Group => {
                group_wins = group_wins + 1;
            },
            Team::Solo => {
                solo_wins = solo_wins + 1;
            },
        }
        if result.solo_survived {
            solo_survivals = solo_survivals + 1;
        }
        casualties = casualties + result.group_casualties as u128;
        rounds = rounds + result.rounds as u128;
        i += 1;
    }
    proof {
        assert(results@.take(results@.len() as int) =~= results@);
    }
    BatchTally { battles: results.len(), group_wins, solo_wins, solo_survivals, casualties, rounds }
}

} // verus!
