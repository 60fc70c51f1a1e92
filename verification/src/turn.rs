//! One turn of one agent: what it decides to do, and what becomes of it.

use crate::agents::{
    attack_result, fit_to_fight, is_nearest_enemy, lemma_plain_damage_bounds, manhattan, moved,
    nearest_enemy,
};
use crate::combat::MAX_HIT;
use crate::models::{Agent, Team};
use crate::roster::{
    allies_of, count_nearby_allies, lemma_nearby_allies_bounds, lemma_total_dealt_update,
    roster_fit, roster_step, total_dealt,
};
use rand::rngs::StdRng;
use std::collections::HashSet;
use vstd::prelude::*;

verus! {

/// What an agent does with its turn.
#[derive(Debug, Clone, Copy, PartialEq, Eq, Structural)]
pub enum Action {
    /// Nothing: the agent is dead, no enemy lives, or its target has already
    /// been attacked in this round.
    Idle,
    /// A step towards the cell `(tx, ty)` of a target out of reach.
    Advance { tx: i32, ty: i32 },
    /// An attack on the agent at index `target`, which is in reach.
    Strike { target: usize },
}

/// What a turn did.
#[derive(Debug, Clone, Copy, PartialEq, Eq, Structural)]
pub struct TurnReport {
    /// What the agent decided to do.
    pub action: Action,
    /// The damage it dealt; zero unless it targeted and the blow landed.
    pub damage: i32,
    /// Whether the blow was critical.
    pub critical: bool,
    /// Whether the blow killed the target.
    pub fatal: bool,
}

/// What the agent at index `i` does with its turn, given the agents
/// `targeted` by an attack earlier in the round.
///
/// A living agent looks for its target, the nearest living enemy. A target
/// already attacked in this round is left alone. A target more than one cell
/// away is approached; one in reach is attacked.
pub open spec fn planned_action(agents: Seq<Agent>, i: int, targeted: Set<usize>) -> Action {
    if !agents[i].alive {
        Action::Idle
    } else {
        match nearest_enemy(agents[i], agents) {
            None => Action::Idle,
            Some(t) => if targeted.contains(t as usize) {
                Action::Idle
            } else if manhattan(agents[i], agents[t]) > 1 {
                Action::Advance { tx: agents[t].x, ty: agents[t].y }
            } else {
                Action::Strike { target: t as usize }
            },
        }
    }
}

/// Whether `report` and the change from `before` to `after` are a possible
/// turn of the agent at index `i`.
///
/// An idle agent changes nothing. An advancing agent steps as `moved` says.
/// A striking agent attacks its target as `attack_result` says, with the
/// allies that `allies_of` counts; no other agent changes, and the target
/// counts as attacked in this round, whether the blow landed or not.
pub open spec fn turn_result(
    before: Seq<Agent>,
    after: Seq<Agent>,
    targeted_before: Set<usize>,
    targeted_after: Set<usize>,
    i: int,
    occupied: Seq<(i32, i32)>,
    rounds_engaged: int,
    report: TurnReport,
) -> bool {
    match report.action {
        Action::Idle => {
            &&& after == before
            &&& targeted_after == targeted_before
            &&& report.damage == 0
            &&& !report.critical
            &&& !report.fatal
        },
        Action::Advance { tx, ty } => {
            &&& after == before.update(i, moved(before[i], tx as int, ty as int, occupied))
            &&& targeted_after == targeted_before
            &&& report.damage == 0
            &&& !report.critical
            &&& !report.fatal
        },
        Action::Strike { target } => {
            &&& attack_result(
                before[i],
                before[target as int],
                after[i],
                after[target as int],
                allies_of(before, i),
                rounds_engaged,
                (report.critical, report.damage),
            )
            &&& after == before.update(target as int, after[target as int]).update(i, after[i])
            &&& targeted_after == targeted_before.insert(target)
            &&& report.fatal == (report.damage != 0 && !after[target as int].alive)
        },
    }
}

/// What every possible turn of the agent at index `i` has in common,
/// whatever the agent decides and whatever is drawn.
///
/// The roster stays fit and changes only as `roster_step` allows. Only the
/// agent itself can gain damage dealt, by what the turn reports, and only
/// the agent itself can change its cell, by at most one step if it stands on
/// the grid. Only an agent that had not been attacked in this round can lose
/// health, by what the turn reports, and it then counts as attacked. An
/// agent dies in the turn exactly when the turn reports a fatal blow, and
/// then it is an enemy of the one whose turn it is.
pub open spec fn turn_effects(
    before: Seq<Agent>,
    after: Seq<Agent>,
    targeted_before: Set<usize>,
    targeted_after: Set<usize>,
    i: int,
    report: TurnReport,
) -> bool {
    &&& roster_fit(after)
    &&& roster_step(before, after)
    &&& 0 <= report.damage <= MAX_HIT
    &&& report.critical ==> report.damage > 0
    &&& report.fatal ==> report.damage > 0
    &&& report.damage > 0 ==> before[i].alive
    &&& total_dealt(after) == total_dealt(before) + report.damage
    &&& after[i].damage_dealt == before[i].damage_dealt + report.damage
    &&& before[i].in_arena() ==> manhattan(before[i], after[i]) <= 1
    &&& forall|j: int|
        0 <= j < before.len() && j != i ==> (#[trigger] after[j]).damage_dealt
            == before[j].damage_dealt && after[j].x == before[j].x && after[j].y == before[j].y
    &&& forall|j: usize| targeted_before.contains(j) ==> #[trigger] targeted_after.contains(j)
    &&& forall|j: int|
        0 <= j < before.len() && (#[trigger] after[j]).hp != before[j].hp ==> {
            &&& !targeted_before.contains(j as usize)
            &&& targeted_after.contains(j as usize)
            &&& after[j].hp == before[j].hp - report.damage
        }
    &&& forall|j: int|
        0 <= j < before.len() && (#[trigger] before[j]).alive && !after[j].alive ==> report.fatal
            && before[j].team != before[i].team
    &&& report.fatal ==> exists|j: int|
        0 <= j < before.len() && (#[trigger] before[j]).alive && !after[j].alive
}

/// Every possible turn at a fit roster has the effects that `turn_effects`
/// names.
pub proof fn lemma_turn_effects(
    before: Seq<Agent>,
    after: Seq<Agent>,
    targeted_before: Set<usize>,
    targeted_after: Set<usize>,
    i: int,
    occupied: Seq<(i32, i32)>,
    rounds_engaged: int,
    report: TurnReport,
)
    requires
        0 <= i < before.len() <= usize::MAX,
        roster_fit(before),
        before[i].damage_dealt + MAX_HIT <= u32::MAX,
        report.action == planned_action(before, i, targeted_before),
        turn_result(
            before,
            after,
            targeted_before,
            targeted_after,
            i,
            occupied,
            rounds_engaged,
            report,
        ),
    ensures
        turn_effects(before, after, targeted_before, targeted_after, i, report),
{
    match report.action {
        Action::Idle => {},
        Action::Advance { tx, ty } => {
            let stepped = moved(before[i], tx as int, ty as int, occupied);
            lemma_total_dealt_update(before, i, stepped);
            assert(roster_fit(after)) by {
                assert forall|j: int| 0 <= j < after.len() implies fit_to_fight(
                    #[trigger] after[j],
                ) by {
                    assert(fit_to_fight(before[j]));
                }
            }
        },
        Action::Strike { target } => {
            let t = target as int;
            assert(is_nearest_enemy(before[i], before, t));
            assert(fit_to_fight(before[i]));
            assert(fit_to_fight(before[t]));
            lemma_nearby_allies_bounds(before[i], before);
            lemma_plain_damage_bounds(before[i], allies_of(before, i), rounds_engaged);
            let hurt = before.update(t, after[t]);
            lemma_total_dealt_update(before, t, after[t]);
            lemma_total_dealt_update(hurt, i, after[i]);
            assert(roster_fit(after)) by {
                assert forall|j: int| 0 <= j < after.len() implies fit_to_fight(
                    #[trigger] after[j],
                ) by {
                    assert(fit_to_fight(before[j]));
                }
            }
            if report.fatal {
                assert(before[t].alive && !after[t].alive);
            }
        },
    }
}

/// Decides what the agent at index `i` does with its turn.
pub fn plan_turn(agents: &Vec<Agent>, i: usize, targeted: &HashSet<usize>) -> (action: Action)
    requires
        i < agents.len(),
    ensures
        action == planned_action(agents@, i as int, targeted@),
{
    let me = agents[i];
    if !me.alive {
        return Action::Idle;
    }
    match me.select_target(agents.as_slice()) {
        None => Action::Idle,
        Some(t) => {
            let foe = agents[t];
            if targeted.contains(&t) {
                Action::Idle
            } else if me.span_to(&foe) > 1 {
                Action::Advance { tx: foe.x, ty: foe.y }
            } else {
                Action::Strike { target: t }
            }
        },
    }
}

/// Gives the agent at index `i` its turn, after `rounds_engaged` rounds in
/// which damage was dealt. `occupied` holds the cells it may not step on,
/// `targeted` the agents already attacked in this round.
///
/// What the agent does is decided by `planned_action`. The draws decide only
/// whether a blow lands and whether it is critical; whatever they are, the
/// turn is one that `turn_result` allows.
pub fn take_turn(
    agents: &mut Vec<Agent>,
    i: usize,
    occupied: &Vec<(i32, i32)>,
    targeted: &mut HashSet<usize>,
    rounds_engaged: u32,
    rng: &mut StdRng,
) -> (report: TurnReport)
    requires
        i < old(agents).len(),
        roster_fit(old(agents)@),
        old(agents)@[i as int].damage_dealt + MAX_HIT <= u32::MAX,
    ensures
        report.action == planned_action(old(agents)@, i as int, old(targeted)@),
        turn_result(
            old(agents)@,
            final(agents)@,
            old(targeted)@,
            final(targeted)@,
            i as int,
            occupied@,
            rounds_engaged as int,
            report,
        ),
{
    let action = plan_turn(agents, i, targeted);
    match action {
        Action::Idle => TurnReport { action, damage: 0, critical: false, fatal: false },
        Action::Advance { tx, ty } => {
            let mut me = agents[i];
            me.move_towards_coords(tx, ty, occupied.as_slice());
            agents.set(i, me);
            TurnReport { action, damage: 0, critical: false, fatal: false }
        },
        Action::Strike { target } => {
            let mut me = agents[i];
            let mut foe = agents[target];
            proof {
                assert(is_nearest_enemy(me, agents@, target as int));
                assert(fit_to_fight(agents@[i as int]));
                assert(fit_to_fight(agents@[target as int]));
            }
            let allies = match me.team {
                Team::Group => count_nearby_allies(agents, i),
                Team::Solo => 0,
            };
            let (critical, damage) = me.attack(&mut foe, allies, rounds_engaged, rng);
            agents.set(target, foe);
            agents.set(i, me);
            targeted.insert(target);
            TurnReport { action, damage, critical, fatal: damage != 0 && !foe.alive }
        },
    }
}

} // verus!
