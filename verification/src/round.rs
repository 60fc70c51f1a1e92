//! One round of a battle: the order in which the agents take their turns,
//! the turns one after the other, and what every round has in common.

use crate::agents::manhattan;
use crate::arena::ARENA_CELLS;
use crate::causal::CausalMetrics;
use crate::combat::MAX_HIT;
use crate::dice::{lemma_shuffle_keeps, shuffle};
use crate::models::{Agent, Team};
use crate::roster::{
    agent_step, dealt_at_most, died, final_blow_follows, lemma_final_blow_chain,
    lemma_roster_step_transitive, lemma_team_sizes, roster_fit, roster_step, team_size,
    total_dealt,
};
use crate::turn::{
    lemma_turn_effects, planned_action, take_turn, turn_effects, turn_result, TurnReport,
};
use rand::rngs::StdRng;
use std::collections::HashSet;
use vstd::prelude::*;

verus! {

/// Whether `order` names each of the indices `0 .. n` once.
pub open spec fn is_turn_order(order: Seq<usize>, n: int) -> bool {
    &&& order.len() == n
    &&& order.no_duplicates()
    &&& forall|k: int| 0 <= k < order.len() ==> (#[trigger] order[k]) < n
    &&& forall|i: usize| i < n ==> #[trigger] order.contains(i)
}

/// Whether `order` goes through `agents` team by team, the group first, and
/// within a team in the order of `agents`.
pub open spec fn is_team_order(order: Seq<usize>, agents: Seq<Agent>) -> bool {
    &&& is_turn_order(order, agents.len() as int)
    &&& forall|a: int, b: int|
        0 <= a < b < order.len() ==> {
            let first = agents[(#[trigger] order[a]) as int].team;
            let second = agents[(#[trigger] order[b]) as int].team;
            ||| (first == Team::Group && second == Team::Solo)
            ||| (first == second && order[a] < order[b])
        }
}

/// Lists the indices of `agents` team by team: the members of the group
/// first, then the others, each team in the order of `agents`.
pub fn team_order(agents: &Vec<Agent>) -> (order: Vec<usize>)
    ensures
        is_team_order(order@, agents@),
{
    let n = agents.len();
    let mut order: Vec<usize> = Vec::new();
    let mut j: usize = 0;
    while j < n
        invariant
            n == agents.len(),
            j <= n,
            order.len() == team_size(agents@.take(j as int), Team::Group),
            forall|a: int|
                0 <= a < order.len() ==> (#[trigger] order@[a]) < j
                    && agents@[order@[a] as int].team == Team::Group,
            forall|a: int, b: int|
                0 <= a < b < order.len() ==> (#[trigger] order@[a]) < (#[trigger] order@[b]),
            forall|i: int|
                0 <= i < j && (#[trigger] agents@[i]).team == Team::Group ==> order@.contains(
                    i as usize,
                ),
        decreases n - j,
    {
        let ghost before = order@;
        proof {
            assert(agents@.take(j as int + 1).drop_last() =~= agents@.take(j as int));
        }
        if agents[j].team == Team::Group {
            order.push(j);
        }
        proof {
            assert forall|i: int|
                0 <= i < j + 1 && (#[trigger] agents@[i]).team
                    == Team::Group implies order@.contains(i as usize) by {
                if i < j {
                    let w = choose|w: int| 0 <= w < before.len() && before[w] == i as usize;
                    assert(order@[w] == i as usize);
                } else {
                    assert(order@[order@.len() - 1] == i as usize);
                }
            }
        }
        j += 1;
    }
    let groups = order.len();
    proof {
        assert(agents@.take(n as int) =~= agents@);
    }
    j = 0;
    while j < n
        invariant
            n == agents.len(),
            j <= n,
            groups == team_size(agents@, Team::Group),
            groups <= order.len(),
            order.len() == groups + team_size(agents@.take(j as int), Team::Solo),
            forall|a: int|
                0 <= a < groups ==> (#[trigger] order@[a]) < n && agents@[order@[a] as int].team
                    == Team::Group,
            forall|a: int|
                groups <= a < order.len() ==> (#[trigger] order@[a]) < j
                    && agents@[order@[a] as int].team == Team::Solo,
            forall|a: int, b: int|
                0 <= a < b < groups ==> (#[trigger] order@[a]) < (#[trigger] order@[b]),
            forall|a: int, b: int|
                groups <= a < b < order.len() ==> (#[trigger] order@[a]) < (#[trigger] order@[b]),
            forall|i: int|
                0 <= i < n && (#[trigger] agents@[i]).team == Team::Group ==> order@.contains(
                    i as usize,
                ),
            forall|i: int|
                0 <= i < j && (#[trigger] agents@[i]).team == Team::Solo ==> order@.contains(
                    i as usize,
                ),
        decreases n - j,
    {
        let ghost before = order@;
        proof {
            assert(agents@.take(j as int + 1).drop_last() =~= agents@.take(j as int));
        }
        if agents[j].team == Team::Solo {
            order.push(j);
        }
        proof {
            assert forall|i: int|
                0 <= i < n && (#[trigger] agents@[i]).team == Team::Group implies order@.contains(
                i as usize,
            ) by {
                let w = choose|w: int| 0 <= w < before.len() && before[w] == i as usize;
                assert(order@[w] == i as usize);
            }
            assert forall|i: int|
                0 <= i < j + 1 && (#[trigger] agents@[i]).team
                    == Team::Solo implies order@.contains(i as usize) by {
                if i < j {
                    let w = choose|w: int| 0 <= w < before.len() && before[w] == i as usize;
                    assert(order@[w] == i as usize);
                } else {
                    assert(order@[order@.len() - 1] == i as usize);
                }
            }
        }
        j += 1;
    }
    proof {
        assert(agents@.take(n as int) =~= agents@);
        lemma_team_sizes(agents@);
        assert forall|i: usize| i < n implies #[trigger] order@.contains(i) by {
            assert(agents@[i as int].team == Team::Group || agents@[i as int].team == Team::Solo);
        }
    }
    order
}

/// A shuffled order is still a turn order.
pub proof fn lemma_shuffled_turn_order(before: Seq<usize>, after: Seq<usize>, n: int)
    requires
        is_turn_order(before, n),
        after.to_multiset() == before.to_multiset(),
    ensures
        is_turn_order(after, n),
{
    lemma_shuffle_keeps(before, after);
    assert forall|k: int| 0 <= k < after.len() implies (#[trigger] after[k]) < n by {
        let x = after[k];
        assert(after.contains(x));
        let w = choose|w: int| 0 <= w < before.len() && before[w] == x;
        assert(before[w] < n);
    }
    assert forall|i: usize| i < n implies #[trigger] after.contains(i) by {
        assert(before.contains(i));
    }
}

/// Draws the order in which the agents take their turns in a round: the team
/// order, shuffled. Whatever the draw, each agent has one turn.
pub fn attack_order(agents: &Vec<Agent>, rng: &mut StdRng) -> (order: Vec<usize>)
    ensures
        is_turn_order(order@, agents.len() as int),
{
    let mut order = team_order(agents);
    let ghost sorted = order@;
    shuffle(&mut order, rng);
    proof {
        lemma_shuffled_turn_order(sorted, order@, agents.len() as int);
    }
    order
}

/// The cell of each agent, living or dead, in the order of `agents`.
pub open spec fn cells_of(agents: Seq<Agent>) -> Seq<(i32, i32)> {
    Seq::new(agents.len(), |i: int| (agents[i].x, agents[i].y))
}

/// Lists the cell of each agent, living or dead, in the order of `agents`.
pub fn occupied_cells(agents: &Vec<Agent>) -> (cells: Vec<(i32, i32)>)
    ensures
        cells@ == cells_of(agents@),
{
    let mut cells: Vec<(i32, i32)> = Vec::new();
    let mut i: usize = 0;
    while i < agents.len()
        invariant
            i <= agents.len(),
            cells.len() == i,
            forall|k: int| 0 <= k < i ==> (#[trigger] cells@[k]) == (agents@[k].x, agents@[k].y),
        decreases agents.len() - i,
    {
        cells.push((agents[i].x, agents[i].y));
        i += 1;
    }
    proof {
        assert(cells@ =~= cells_of(agents@));
    }
    cells
}

/// Whether the agent at index `j` has not had its turn among the first `k`
/// turns of `order`.
pub open spec fn awaits_turn(order: Seq<usize>, k: int, j: int) -> bool {
    forall|w: int| 0 <= w < k ==> (#[trigger] order[w]) != j
}

/// The turns of one round, one after the other: the order in which the
/// agents had their turns, the roster and the agents already attacked
/// before each turn and after the last, and what each turn reported.
pub struct RoundTrace {
    pub order: Seq<usize>,
    pub rosters: Seq<Seq<Agent>>,
    pub targeted: Seq<Set<usize>>,
    pub reports: Seq<TurnReport>,
}

/// Whether turn `k` of `trace` is a possible turn of the agent whose turn it
/// was: the agent did what `planned_action` decides, with a result that
/// `turn_result` allows.
pub open spec fn turn_played(
    trace: RoundTrace,
    k: int,
    occupied: Seq<(i32, i32)>,
    rounds_engaged: int,
) -> bool {
    &&& trace.reports[k].action == planned_action(
        trace.rosters[k],
        trace.order[k] as int,
        trace.targeted[k],
    )
    &&& turn_result(
        trace.rosters[k],
        trace.rosters[k + 1],
        trace.targeted[k],
        trace.targeted[k + 1],
        trace.order[k] as int,
        occupied,
        rounds_engaged,
        trace.reports[k],
    )
}

/// The damage that `reports` add up to.
pub open spec fn damage_sum(reports: Seq<TurnReport>) -> int
    decreases reports.len(),
{
    if reports.len() == 0 {
        0
    } else {
        damage_sum(reports.drop_last()) + reports.last().damage
    }
}

/// How many of `reports` tell of a critical blow.
pub open spec fn critical_count(reports: Seq<TurnReport>) -> int
    decreases reports.len(),
{
    if reports.len() == 0 {
        0
    } else {
        critical_count(reports.drop_last()) + if reports.last().critical {
            1int
        } else {
            0int
        }
    }
}

/// The mark of the last fatal blow after the turns that `reports` tell of,
/// taken in `order` by `agents`: whether the last fatal blow among them was
/// dealt by the solitary side, and `mark` if none of them was fatal.
pub open spec fn mark_after(
    reports: Seq<TurnReport>,
    order: Seq<usize>,
    agents: Seq<Agent>,
    mark: bool,
) -> bool
    decreases reports.len(),
{
    if reports.len() == 0 {
        mark
    } else if reports.last().fatal {
        agents[order[reports.len() - 1] as int].team == Team::Solo
    } else {
        mark_after(reports.drop_last(), order, agents, mark)
    }
}

/// Whether `trace` is a round that leads from `before` to `after`.
///
/// Every agent has one turn. The first turn meets the roster as the round
/// found it, with no agent attacked yet; each turn meets what the turn before
/// left; the last leaves `after`. The cells that count as occupied are
/// those of `before`. The damage of the round is that of its turns
/// together; each critical blow is counted, and the mark of the last fatal
/// blow follows the turns.
pub open spec fn round_played(
    trace: RoundTrace,
    before: Seq<Agent>,
    after: Seq<Agent>,
    causal_before: CausalMetrics,
    causal_after: CausalMetrics,
    round_damage: int,
) -> bool {
    let n = before.len() as int;
    &&& is_turn_order(trace.order, n)
    &&& trace.rosters.len() == n + 1
    &&& trace.targeted.len() == n + 1
    &&& trace.reports.len() == n
    &&& trace.rosters[0] == before
    &&& trace.targeted[0] == Set::<usize>::empty()
    &&& trace.rosters[n] == after
    &&& forall|k: int|
        0 <= k < n ==> #[trigger] turn_played(
            trace,
            k,
            cells_of(before),
            causal_before.rounds_engaged as int,
        )
    &&& round_damage == damage_sum(trace.reports)
    &&& causal_after == (CausalMetrics {
        total_critical_hits: (causal_before.total_critical_hits + critical_count(
            trace.reports,
        )) as u32,
        solo_final_blow: mark_after(
            trace.reports,
            trace.order,
            before,
            causal_before.solo_final_blow,
        ),
        ..causal_before
    })
}

/// Whether some round leads from `before` to `after`.
pub open spec fn round_possible(
    before: Seq<Agent>,
    after: Seq<Agent>,
    causal_before: CausalMetrics,
    causal_after: CausalMetrics,
    round_damage: int,
) -> bool {
    exists|trace: RoundTrace|
        round_played(trace, before, after, causal_before, causal_after, round_damage)
}

/// What every possible round has in common, whatever is drawn.
///
/// The roster stays fit and changes only as `roster_step` allows. The damage
/// of the round is what the agents together have gained in damage dealt; it
/// is never negative. No agent attacks twice or is attacked twice: none
/// gains or loses more than one blow's worth. None on the grid moves by
/// more than a step. Of the counters, only the critical blows and the mark
/// of the last fatal blow can change.
pub open spec fn round_effects(
    before: Seq<Agent>,
    after: Seq<Agent>,
    causal_before: CausalMetrics,
    causal_after: CausalMetrics,
    round_damage: int,
) -> bool {
    &&& roster_fit(after)
    &&& roster_step(before, after)
    &&& round_damage == total_dealt(after) - total_dealt(before)
    &&& 0 <= round_damage <= before.len() * MAX_HIT
    &&& forall|j: int|
        0 <= j < before.len() ==> (#[trigger] after[j]).damage_dealt <= before[j].damage_dealt
            + MAX_HIT
    &&& forall|j: int|
        0 <= j < before.len() ==> (#[trigger] after[j]).hp >= before[j].hp - MAX_HIT
    &&& forall|j: int|
        0 <= j < before.len() && (#[trigger] before[j]).in_arena() ==> manhattan(
            before[j],
            after[j],
        ) <= 1
    &&& causal_after == (CausalMetrics {
        total_critical_hits: causal_after.total_critical_hits,
        solo_final_blow: causal_after.solo_final_blow,
        ..causal_before
    })
    &&& causal_before.total_critical_hits <= causal_after.total_critical_hits
        <= causal_before.total_critical_hits + before.len()
    &&& final_blow_follows(
        before,
        after,
        causal_before.solo_final_blow,
        causal_after.solo_final_blow,
    )
}

/// Runs one round: every agent has one turn, in a freshly drawn order. The
/// cells that count as occupied are those held when the round begins, by
/// the living and the dead. Returns the damage dealt in the round.
pub fn execute_round(
    agents: &mut Vec<Agent>,
    causal: &mut CausalMetrics,
    rng: &mut StdRng,
) -> (round_damage: i32)
    requires
        roster_fit(old(agents)@),
        dealt_at_most(old(agents)@, u32::MAX - MAX_HIT),
        old(causal).total_critical_hits + old(agents).len() <= u32::MAX,
    ensures
        round_possible(
            old(agents)@,
            final(agents)@,
            *old(causal),
            *final(causal),
            round_damage as int,
        ),
        round_effects(
            old(agents)@,
            final(agents)@,
            *old(causal),
            *final(causal),
            round_damage as int,
        ),
{
    let order = attack_order(agents, rng);
    let occupied = occupied_cells(agents);
    let mut targeted: HashSet<usize> = HashSet::new();
    let mut round_damage: i32 = 0;
    let n = agents.len();
    let ghost start = agents@;
    let ghost causal_start = *causal;
    let ghost mut trace = RoundTrace {
        order: order@,
        rosters: seq![start],
        targeted: seq![targeted@],
        reports: Seq::empty(),
    };
    let mut k: usize = 0;
    while k < n
        invariant
            k <= n,
            n == agents.len(),
            n == start.len(),
            n <= ARENA_CELLS,
            is_turn_order(order@, n as int),
            occupied@ == cells_of(start),
            trace.order == order@,
            trace.rosters.len() == k + 1,
            trace.targeted.len() == k + 1,
            trace.reports.len() == k,
            trace.rosters[0] == start,
            trace.targeted[0] == Set::<usize>::empty(),
            trace.rosters[k as int] == agents@,
            trace.targeted[k as int] == targeted@,
            forall|j: int|
                0 <= j < k ==> #[trigger] turn_played(
                    trace,
                    j,
                    cells_of(start),
                    causal_start.rounds_engaged as int,
                ),
            round_damage == damage_sum(trace.reports),
            causal.total_critical_hits == causal_start.total_critical_hits + critical_count(
                trace.reports,
            ),
            causal.solo_final_blow == mark_after(
                trace.reports,
                order@,
                start,
                causal_start.solo_final_blow,
            ),
            roster_fit(agents@),
            roster_step(start, agents@),
            dealt_at_most(start, u32::MAX - MAX_HIT),
            round_damage == total_dealt(agents@) - total_dealt(start),
            0 <= round_damage <= k * MAX_HIT,
            forall|j: int|
                0 <= j < n ==> (#[trigger] agents@[j]).damage_dealt <= start[j].damage_dealt
                    + MAX_HIT,
            forall|j: int|
                0 <= j < n ==> (#[trigger] agents@[j]).hp >= start[j].hp - MAX_HIT,
            forall|j: int|
                0 <= j < n && !targeted@.contains(j as usize) ==> (#[trigger] agents@[j]).hp
                    == start[j].hp,
            forall|j: int|
                0 <= j < n && (#[trigger] start[j]).in_arena() ==> manhattan(start[j], agents@[j])
                    <= 1,
            forall|j: int|
                0 <= j < n && #[trigger] awaits_turn(order@, k as int, j) ==> {
                    &&& agents@[j].damage_dealt == start[j].damage_dealt
                    &&& agents@[j].x == start[j].x
                    &&& agents@[j].y == start[j].y
                },
            *causal == (CausalMetrics {
                total_critical_hits: causal.total_critical_hits,
                solo_final_blow: causal.solo_final_blow,
                ..causal_start
            }),
            causal_start.total_critical_hits <= causal.total_critical_hits
                <= causal_start.total_critical_hits + k,
            causal_start.total_critical_hits + n <= u32::MAX,
            final_blow_follows(
                start,
                agents@,
                causal_start.solo_final_blow,
                causal.solo_final_blow,
            ),
        decreases n - k,
    {
        let i = order[k];
        let ghost before = agents@;
        let ghost targeted_before = targeted@;
        let ghost mark_before = causal.solo_final_blow;
        proof {
            assert(awaits_turn(order@, k as int, i as int));
            assert(start[i as int].damage_dealt <= u32::MAX - MAX_HIT);
        }
        let report = take_turn(agents, i, &occupied, &mut targeted, causal.rounds_engaged, rng);
        proof {
            lemma_turn_effects(
                before,
                agents@,
                targeted_before,
                targeted@,
                i as int,
                occupied@,
                causal.rounds_engaged as int,
                report,
            );
            assert(turn_effects(before, agents@, targeted_before, targeted@, i as int, report));
            lemma_roster_step_transitive(start, before, agents@);
        }
        if report.critical {
            causal.total_critical_hits = causal.total_critical_hits + 1;
        }
        if report.fatal {
            causal.solo_final_blow = agents[i].team == Team::Solo;
        }
        round_damage = round_damage + report.damage;
        proof {
            let played = trace;
            trace = RoundTrace {
                order: played.order,
                rosters: played.rosters.push(agents@),
                targeted: played.targeted.push(targeted@),
                reports: played.reports.push(report),
            };
            assert(trace.reports.drop_last() =~= played.reports);
            assert(agents@[i as int].team == start[i as int].team) by {
                assert(agent_step(start[i as int], agents@[i as int]));
            }
            assert forall|j: int| 0 <= j < k + 1 implies #[trigger] turn_played(
                trace,
                j,
                cells_of(start),
                causal_start.rounds_engaged as int,
            ) by {
                if j < k {
                    assert(turn_played(
                        played,
                        j,
                        cells_of(start),
                        causal_start.rounds_engaged as int,
                    ));
                }
            }
        }
        proof {
            let after = agents@;
            assert forall|j: int|
                0 <= j < n && #[trigger] awaits_turn(order@, k as int + 1, j) implies {
                &&& after[j].damage_dealt == start[j].damage_dealt
                &&& after[j].x == start[j].x
                &&& after[j].y == start[j].y
            } by {
                assert(order@[k as int] != j);
                assert(awaits_turn(order@, k as int, j));
            }
            assert forall|j: int| 0 <= j < n implies (#[trigger] after[j]).damage_dealt
                <= start[j].damage_dealt + MAX_HIT by {
                if j != i {
                    assert(after[j].damage_dealt == before[j].damage_dealt);
                }
            }
            assert forall|j: int| 0 <= j < n && (#[trigger] start[j]).in_arena() implies manhattan(
                start[j],
                after[j],
            ) <= 1 by {
                if j != i {
                    assert(after[j].x == before[j].x && after[j].y == before[j].y);
                } else {
                    assert(before[j].x == start[j].x && before[j].y == start[j].y);
                }
            }
            assert(final_blow_follows(before, after, mark_before, causal.solo_final_blow)) by {
                if report.fatal {
                    let victim = choose|j: int|
                        0 <= j < before.len() && (#[trigger] before[j]).alive && !after[j].alive;
                    assert(died(before, after, victim));
                    assert(after[i as int].team == before[i as int].team) by {
                        assert(agent_step(before[i as int], after[i as int]));
                    }
                } else {
                    assert forall|j: int| !#[trigger] died(before, after, j) by {
                        if 0 <= j < n && before[j].alive && !after[j].alive {
                            assert(report.fatal);
                        }
                    }
                }
            }
            lemma_final_blow_chain(
                start,
                before,
                after,
                causal_start.solo_final_blow,
                mark_before,
                causal.solo_final_blow,
            );
        }
        k += 1;
    }
    proof {
        assert(round_played(
            trace,
            start,
            agents@,
            causal_start,
            *causal,
            round_damage as int,
        ));
    }
    round_damage
}

} // verus!
