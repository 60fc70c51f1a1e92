//! Laws of a battle, each proved from the contracts of the functions it is
//! about.

use crate::agents::{is_nearest_enemy, moved, nearest_enemy};
use crate::causal::CausalMetrics;
use crate::combat::{
    crit_threshold, effective_defense, effective_speed, effective_strength, hit_chance,
};
use crate::models::{Agent, Team};
use crate::roster::{agent_step, roster_step};
use crate::simulation::{idle_window, rounds_effects, MAX_ROUNDS, STALEMATE_ROUNDS};
use crate::turn::{planned_action, turn_result, Action, TurnReport};
use vstd::prelude::*;

verus! {

/// No agent attacks itself: its target is never its own index, the action
/// it plans is never a strike at itself, and no turn of its own costs it
/// health.
pub proof fn law_no_agent_attacks_itself(
    before: Seq<Agent>,
    after: Seq<Agent>,
    targeted_before: Set<usize>,
    targeted_after: Set<usize>,
    i: int,
    occupied: Seq<(i32, i32)>,
    rounds_engaged: int,
    report: TurnReport,
)
    requires
        0 <= i < before.len() <= usize::MAX,
        report.action == planned_action(before, i, targeted_before),
        turn_result(
            before,
            after,
            targeted_before,
            targeted_after,
            i,
            occupied,
            rounds_engaged,
            report,
        ),
    ensures
        nearest_enemy(before[i], before) != Some(i),
        report.action matches Action::Strike { target } ==> target != i,
        after[i].hp == before[i].hp,
        after[i].alive == before[i].alive,
{
    if nearest_enemy(before[i], before) is Some {
        let t = nearest_enemy(before[i], before)->0;
        assert(is_nearest_enemy(before[i], before, t));
    }
}

/// Once an agent is dead, nothing about it changes any more: not its cell,
/// not the damage it has dealt, not its health.
pub proof fn law_the_dead_rest(before: Seq<Agent>, after: Seq<Agent>, j: int)
    requires
        roster_step(before, after),
        0 <= j < before.len(),
        !before[j].alive,
    ensures
        after[j] == before[j],
{
    assert(agent_step(before[j], after[j]));
}

/// The damage an agent has dealt never shrinks, and its health never grows.
pub proof fn law_damage_only_grows(before: Seq<Agent>, after: Seq<Agent>, j: int)
    requires
        roster_step(before, after),
        0 <= j < before.len(),
    ensures
        after[j].damage_dealt >= before[j].damage_dealt,
        after[j].hp <= before[j].hp,
{
    assert(agent_step(before[j], after[j]));
}

/// A step never puts an agent off the grid: whatever the target and the
/// occupied cells, the agent has either not moved or stands on the grid.
pub proof fn law_steps_stay_on_the_grid(a: Agent, tx: int, ty: int, occupied: Seq<(i32, i32)>)
    ensures
        ({
            let b = moved(a, tx, ty, occupied);
            b.in_arena() || (b.x == a.x && b.y == a.y)
        }),
        a.in_arena() ==> moved(a, tx, ty, occupied).in_arena(),
{
}

/// Whatever the fatigue, no stat that it leaves is under 1.
pub proof fn law_effective_stats_are_positive(spd: int, str_: int, def: int, fatigue: int)
    ensures
        effective_speed(spd, fatigue) >= 1,
        effective_strength(str_, fatigue) >= 1,
        effective_defense(def, fatigue) >= 1,
{
}

/// Neither a hit nor a miss is ever certain, and neither is a critical blow:
/// the hit chance stays between 20 and 95 percent, the critical threshold
/// between 1 and 95 percent, whatever the stats and whatever is drawn.
pub proof fn law_chances_are_clamped(
    team: Team,
    speed: int,
    target_speed: int,
    crit_chance: int,
    allies: int,
    jitter: int,
)
    ensures
        20 <= hit_chance(team, speed, target_speed, allies, jitter) <= 95,
        team == Team::Group ==> hit_chance(team, speed, target_speed, allies, jitter) <= 90,
        team == Team::Solo ==> hit_chance(team, speed, target_speed, allies, jitter) >= 25,
        1 <= crit_threshold(team, crit_chance, allies, jitter) <= 95,
{
}

/// No battle runs for more than `MAX_ROUNDS` rounds.
pub proof fn law_rounds_are_capped(
    before: Seq<Agent>,
    after: Seq<Agent>,
    causal_before: CausalMetrics,
    causal_after: CausalMetrics,
    log: Seq<i32>,
)
    requires
        rounds_effects(before, after, causal_before, causal_after, log),
    ensures
        log.len() <= MAX_ROUNDS,
{
}

/// A battle ends with the `STALEMATE_ROUNDS`-th round in a row that deals no
/// damage: if no round after round `last` dealt damage, the battle ran for
/// at most `STALEMATE_ROUNDS` rounds after it. With `last == -1` this speaks
/// of a battle in which no round dealt damage.
pub proof fn law_stalemate_ends_the_battle(
    before: Seq<Agent>,
    after: Seq<Agent>,
    causal_before: CausalMetrics,
    causal_after: CausalMetrics,
    log: Seq<i32>,
    last: int,
)
    requires
        rounds_effects(before, after, causal_before, causal_after, log),
        -1 <= last < log.len(),
        forall|r: int| last < r < log.len() ==> #[trigger] log[r] == 0,
    ensures
        log.len() <= last + 1 + STALEMATE_ROUNDS,
{
    if log.len() > last + 1 + STALEMATE_ROUNDS {
        assert(idle_window(log, last + 1 + STALEMATE_ROUNDS));
    }
}

} // verus!
