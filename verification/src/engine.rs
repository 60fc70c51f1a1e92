//! The engine of one battle: setup, rounds, summary.

use crate::agents::fit_to_fight;
use crate::arena::ARENA_CELLS;
use crate::causal::CausalMetrics;
use crate::character_profiles::AgentProfile;
use crate::models::{Agent, BattleResult, Team};
use crate::roster::{any_living, battle_active, dealt_at_most, roster_fit};
use crate::simulation::{
    battle_played, battle_possible, init_agents, lemma_battle_outcome, outcome_effects,
    run_rounds, summarize_battle, BattleRun, BATTLE_DAMAGE_ROOM,
};
use rand::rngs::StdRng;
use vstd::prelude::*;

verus! {

/// Runs one battle of `group_count` members of the group against
/// `solo_count` of the other side, from setup to record, drawing from `rng`.
/// `context` is attached to the record as it is.
///
/// The agents are set on cells of their own, rounds are run until the
/// battle is over, and the outcome is summed up. Whatever is drawn, the
/// record is that of a battle that `battle_possible` allows, and so is as
/// `outcome_effects` says.
pub fn run_battle<C>(
    battle_id: usize,
    group_profile: &AgentProfile,
    solo_profile: &AgentProfile,
    group_count: usize,
    solo_count: usize,
    context: C,
    rng: &mut StdRng,
) -> (result: BattleResult<C>)
    requires
        group_profile.usable(),
        solo_profile.usable(),
        group_count + solo_count <= ARENA_CELLS,
    ensures
        battle_possible(
            result,
            battle_id,
            *group_profile,
            *solo_profile,
            group_count as int,
            solo_count as int,
            context,
        ),
        outcome_effects(
            result,
            battle_id,
            *solo_profile,
            group_count as int,
            solo_count as int,
            context,
        ),
{
    let mut agents = init_agents(group_profile, solo_profile, group_count, solo_count, rng);
    let mut causal = CausalMetrics::new();
    let ghost start = agents@;
    proof {
        assert(roster_fit(start)) by {
            assert forall|i: int| 0 <= i < start.len() implies fit_to_fight(
                #[trigger] start[i],
            ) by {
                if i < group_count {
                    assert(start[i].hp == group_profile.hp);
                } else {
                    assert(start[i].hp == solo_profile.hp);
                }
            }
        }
        assert(dealt_at_most(start, u32::MAX - BATTLE_DAMAGE_ROOM));
    }
    let log = run_rounds(&mut agents, &mut causal, rng);
    proof {
        lemma_battle_outcome(
            start,
            agents@,
            causal,
            log@,
            battle_id,
            *group_profile,
            *solo_profile,
            group_count as int,
            solo_count as int,
            context,
        );
    }
    let result = summarize_battle(battle_id, &agents, log.len() as u32, causal, context);
    proof {
        let run = BattleRun { start, end: agents@, causal, log: log@ };
        assert(battle_played(
            run,
            result,
            battle_id,
            *group_profile,
            *solo_profile,
            group_count as int,
            solo_count as int,
            context,
        ));
    }
    result
}

/// Decides whether the battle is over: whether a team has no living member.
pub fn is_battle_over(agents: &[Agent]) -> (over: bool)
    ensures
        over == !battle_active(agents@),
{
    let group_alive = any_living(agents, Team::Group);
    let solo_alive = any_living(agents, Team::Solo);
    !(group_alive && solo_alive)
}

} // verus!
