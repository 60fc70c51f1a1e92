//! A battle from setup to summary: the roster it begins with, the loop of
//! rounds, and the record of the outcome.

use crate::agents::{fit_to_fight, fresh_agent};
use crate::arena::{within_bounds, ARENA_CELLS, ARENA_HEIGHT};
use crate::causal::CausalMetrics;
use crate::character_profiles::AgentProfile;
use crate::combat::MAX_HIT;
use crate::dice::{lemma_shuffle_keeps, seeded, shuffle};
use crate::engine::run_battle;
use crate::models::{Agent, BattleResult, Team};
use crate::roster::{
    agent_step, any_living, battle_active, dealt_at_most, fallen, final_blow_follows, first_of,
    has_living, is_first_of, lemma_fallen_all, lemma_fallen_bounds, lemma_fallen_none,
    lemma_final_blow_chain, lemma_first_of_is, lemma_first_of_none,
    lemma_roster_step_reflexive, lemma_roster_step_transitive, lemma_team_best_at_most,
    lemma_team_dealt_bounds, lemma_team_size_of_halves, lemma_team_size_step,
    lemma_total_dealt_at_most, lemma_total_dealt_zero, roster_fit, roster_step, team_best,
    team_dealt, team_size, total_dealt,
};
use crate::round::{execute_round, round_possible};
use rand::rngs::StdRng;
use vstd::math::max;
use vstd::prelude::*;

verus! {

/// No battle runs for more rounds than this.
pub const MAX_ROUNDS: u32 = 1000;

/// A battle in which this many rounds in a row deal no damage is a
/// stalemate, and ends.
pub const STALEMATE_ROUNDS: u32 = 10;

/// Room that the damage count of each agent must have left for a whole
/// battle: `MAX_ROUNDS` blows of `MAX_HIT`.
pub const BATTLE_DAMAGE_ROOM: u32 = 100_000_000;

/// Room that the count of critical blows must have left for a whole battle:
/// `MAX_ROUNDS` rounds of `ARENA_CELLS` blows.
pub const BATTLE_CRIT_ROOM: u32 = 10_000_000;

/// Whether the `STALEMATE_ROUNDS` rounds before round `end` of `log` all
/// dealt no damage.
pub open spec fn idle_window(log: Seq<i32>, end: int) -> bool {
    &&& STALEMATE_ROUNDS <= end <= log.len()
    &&& forall|r: int| end - STALEMATE_ROUNDS <= r < end ==> #[trigger] log[r] == 0
}

/// How many rounds of `log` dealt damage.
pub open spec fn engaged_rounds(log: Seq<i32>) -> int
    decreases log.len(),
{
    if log.len() == 0 {
        0
    } else {
        engaged_rounds(log.drop_last()) + if log.last() > 0 {
            1int
        } else {
            0int
        }
    }
}

/// The damage of all rounds of `log` together.
pub open spec fn log_total(log: Seq<i32>) -> int
    decreases log.len(),
{
    if log.len() == 0 {
        0
    } else {
        log_total(log.drop_last()) + log.last()
    }
}

/// The rounds of one battle, one after the other: the roster and the
/// counters before each round and after the last.
pub struct BattleTrace {
    pub rosters: Seq<Seq<Agent>>,
    pub causals: Seq<CausalMetrics>,
}

/// Whether round `r` of `trace` is a possible round that dealt `log[r]`: it
/// was run on a battle still going on, its turns were played as
/// `round_possible` says, and it was counted as engaged exactly if it dealt
/// damage.
pub open spec fn round_run(trace: BattleTrace, r: int, log: Seq<i32>) -> bool {
    &&& battle_active(trace.rosters[r])
    &&& round_possible(
        trace.rosters[r],
        trace.rosters[r + 1],
        trace.causals[r],
        CausalMetrics { rounds_engaged: trace.causals[r].rounds_engaged, ..trace.causals[r + 1] },
        log[r] as int,
    )
    &&& trace.causals[r + 1].rounds_engaged == trace.causals[r].rounds_engaged + if log[r] > 0 {
        1int
    } else {
        0int
    }
}

/// Whether `trace` is a run of rounds that leads from `before` to `after`
/// and dealt the damage that `log` lists.
pub open spec fn rounds_played(
    trace: BattleTrace,
    before: Seq<Agent>,
    after: Seq<Agent>,
    causal_before: CausalMetrics,
    causal_after: CausalMetrics,
    log: Seq<i32>,
) -> bool {
    let n = log.len() as int;
    &&& trace.rosters.len() == n + 1
    &&& trace.causals.len() == n + 1
    &&& trace.rosters[0] == before
    &&& trace.causals[0] == causal_before
    &&& trace.rosters[n] == after
    &&& trace.causals[n] == causal_after
    &&& forall|r: int| 0 <= r < n ==> #[trigger] round_run(trace, r, log)
}

/// Whether some run of rounds leads from `before` to `after` and dealt the
/// damage that `log` lists.
pub open spec fn rounds_possible(
    before: Seq<Agent>,
    after: Seq<Agent>,
    causal_before: CausalMetrics,
    causal_after: CausalMetrics,
    log: Seq<i32>,
) -> bool {
    exists|trace: BattleTrace|
        rounds_played(trace, before, after, causal_before, causal_after, log)
}

/// What every possible run of rounds has in common, whatever is drawn.
/// `log` holds the damage of each round that was run, in order.
///
/// At most `MAX_ROUNDS` rounds are run, and none after `STALEMATE_ROUNDS`
/// rounds in a row without damage: such a row can only be the end of the
/// log. Rounds are run only while both teams have a living member, and they
/// stop only for one of the three reasons. The roster stays fit and changes
/// only as `roster_step` allows; what the agents gain in damage dealt is
/// what the log adds up to. The rounds in which damage was dealt are
/// counted.
pub open spec fn rounds_effects(
    before: Seq<Agent>,
    after: Seq<Agent>,
    causal_before: CausalMetrics,
    causal_after: CausalMetrics,
    log: Seq<i32>,
) -> bool {
    &&& log.len() <= MAX_ROUNDS
    &&& forall|r: int| 0 <= r < log.len() ==> 0 <= #[trigger] log[r]
    &&& forall|end: int| #[trigger] idle_window(log, end) ==> end == log.len()
    &&& (log.len() > 0 ==> battle_active(before))
    &&& (log.len() == 0 ==> after == before && causal_after == causal_before)
    &&& (log.len() == MAX_ROUNDS || !battle_active(after) || idle_window(log, log.len() as int))
    &&& roster_fit(after)
    &&& roster_step(before, after)
    &&& log_total(log) == total_dealt(after) - total_dealt(before)
    &&& forall|j: int|
        0 <= j < before.len() ==> (#[trigger] after[j]).damage_dealt <= before[j].damage_dealt
            + log.len() * MAX_HIT
    &&& causal_after == (CausalMetrics {
        total_critical_hits: causal_after.total_critical_hits,
        solo_final_blow: causal_after.solo_final_blow,
        rounds_engaged: causal_after.rounds_engaged,
        ..causal_before
    })
    &&& causal_after.rounds_engaged == causal_before.rounds_engaged + engaged_rounds(log)
    &&& 0 <= engaged_rounds(log) <= log.len()
    &&& causal_before.total_critical_hits <= causal_after.total_critical_hits
        <= causal_before.total_critical_hits + log.len() * ARENA_CELLS
    &&& final_blow_follows(
        before,
        after,
        causal_before.solo_final_blow,
        causal_after.solo_final_blow,
    )
}

/// Decides whether the battle goes on: whether both teams have a living
/// member.
pub fn simulation_active(agents: &Vec<Agent>) -> (active: bool)
    ensures
        active == battle_active(agents@),
{
    let group_alive = any_living(agents.as_slice(), Team::Group);
    let solo_alive = any_living(agents.as_slice(), Team::Solo);
    group_alive && solo_alive
}

/// Runs rounds until the battle is over: until a team has no living member,
/// `MAX_ROUNDS` rounds have been run, or `STALEMATE_ROUNDS` rounds in a row
/// have dealt no damage. Returns the damage of each round, in order.
pub fn run_rounds(
    agents: &mut Vec<Agent>,
    causal: &mut CausalMetrics,
    rng: &mut StdRng,
) -> (log: Vec<i32>)
    requires
        roster_fit(old(agents)@),
        dealt_at_most(old(agents)@, u32::MAX - BATTLE_DAMAGE_ROOM),
        old(causal).total_critical_hits <= u32::MAX - BATTLE_CRIT_ROOM,
        old(causal).rounds_engaged <= u32::MAX - MAX_ROUNDS,
    ensures
        rounds_possible(old(agents)@, final(agents)@, *old(causal), *final(causal), log@),
        rounds_effects(old(agents)@, final(agents)@, *old(causal), *final(causal), log@),
{
    let mut log: Vec<i32> = Vec::new();
    let mut idle: u32 = 0;
    let mut active = simulation_active(agents);
    let ghost start = agents@;
    let ghost causal_start = *causal;
    let ghost mut trace = BattleTrace { rosters: seq![start], causals: seq![causal_start] };
    proof {
        lemma_roster_step_reflexive(start);
    }
    while active && idle < STALEMATE_ROUNDS && log.len() < MAX_ROUNDS as usize
        invariant
            active == battle_active(agents@),
            trace.rosters.len() == log.len() + 1,
            trace.causals.len() == log.len() + 1,
            trace.rosters[0] == start,
            trace.causals[0] == causal_start,
            trace.rosters[log.len() as int] == agents@,
            trace.causals[log.len() as int] == *causal,
            forall|r: int| 0 <= r < log.len() ==> #[trigger] round_run(trace, r, log@),
            log.len() <= MAX_ROUNDS,
            idle <= STALEMATE_ROUNDS,
            idle <= log.len(),
            forall|r: int| log.len() - idle <= r < log.len() ==> #[trigger] log@[r] == 0,
            idle < log.len() ==> log@[log.len() - idle - 1] != 0,
            forall|r: int| 0 <= r < log.len() ==> 0 <= #[trigger] log@[r],
            forall|end: int| #[trigger] idle_window(log@, end) ==> end == log.len(),
            log.len() > 0 ==> battle_active(start),
            log.len() == 0 ==> agents@ == start && *causal == causal_start,
            roster_fit(agents@),
            roster_step(start, agents@),
            dealt_at_most(start, u32::MAX - BATTLE_DAMAGE_ROOM),
            log_total(log@) == total_dealt(agents@) - total_dealt(start),
            forall|j: int|
                0 <= j < start.len() ==> (#[trigger] agents@[j]).damage_dealt
                    <= start[j].damage_dealt + log.len() * MAX_HIT,
            *causal == (CausalMetrics {
                total_critical_hits: causal.total_critical_hits,
                solo_final_blow: causal.solo_final_blow,
                rounds_engaged: causal.rounds_engaged,
                ..causal_start
            }),
            causal.rounds_engaged == causal_start.rounds_engaged + engaged_rounds(log@),
            0 <= engaged_rounds(log@) <= log.len(),
            causal_start.rounds_engaged <= u32::MAX - MAX_ROUNDS,
            causal_start.total_critical_hits <= causal.total_critical_hits
                <= causal_start.total_critical_hits + log.len() * ARENA_CELLS,
            causal_start.total_critical_hits <= u32::MAX - BATTLE_CRIT_ROOM,
            final_blow_follows(
                start,
                agents@,
                causal_start.solo_final_blow,
                causal.solo_final_blow,
            ),
        decreases MAX_ROUNDS - log.len(),
    {
        let ghost before = agents@;
        let ghost causal_before = *causal;
        let ghost log_before = log@;
        proof {
            assert(dealt_at_most(before, u32::MAX - MAX_HIT)) by {
                assert forall|j: int| 0 <= j < before.len() implies (
                #[trigger] before[j]).damage_dealt <= u32::MAX - MAX_HIT by {
                    assert(start[j].damage_dealt <= u32::MAX - BATTLE_DAMAGE_ROOM);
                }
            }
        }
        let round_damage = execute_round(agents, causal, rng);
        log.push(round_damage);
        if round_damage > 0 {
            causal.rounds_engaged = causal.rounds_engaged + 1;
            idle = 0;
        } else {
            idle = idle + 1;
        }
        active = simulation_active(agents);
        proof {
            let played = trace;
            trace = BattleTrace {
                rosters: played.rosters.push(agents@),
                causals: played.causals.push(*causal),
            };
            assert forall|r: int| 0 <= r < log@.len() implies #[trigger] round_run(
                trace,
                r,
                log@,
            ) by {
                if r < log_before.len() {
                    assert(round_run(played, r, log_before));
                    assert(log@[r] == log_before[r]);
                }
            }
        }
        proof {
            let after = agents@;
            assert(log@.drop_last() =~= log_before);
            lemma_roster_step_transitive(start, before, after);
            lemma_final_blow_chain(
                start,
                before,
                after,
                causal_start.solo_final_blow,
                causal_before.solo_final_blow,
                causal.solo_final_blow,
            );
            assert forall|end: int| #[trigger] idle_window(log@, end) implies end
                == log@.len() by {
                if end < log@.len() {
                    assert forall|r: int|
                        end - STALEMATE_ROUNDS <= r < end implies #[trigger] log_before[r]
                        == 0 by {
                        assert(log@[r] == 0);
                    }
                    assert(idle_window(log_before, end));
                }
            }
            assert forall|j: int| 0 <= j < start.len() implies (#[trigger] after[j]).damage_dealt
                <= start[j].damage_dealt + log@.len() * MAX_HIT by {
                assert(before[j].damage_dealt <= start[j].damage_dealt + log_before.len()
                    * MAX_HIT);
            }
        }
    }
    proof {
        if active && log.len() < MAX_ROUNDS {
            assert(idle_window(log@, log.len() as int));
        }
        assert(rounds_played(trace, start, agents@, causal_start, *causal, log@));
    }
    log
}

/// The health left to the solitary side when a battle is summed up: that of
/// its first member, nothing if that member is dead, and `unset` if the side
/// has no member.
pub open spec fn solo_health_left(agents: Seq<Agent>, unset: u32) -> int {
    match first_of(agents, Team::Solo) {
        Some(i) => if agents[i].alive {
            max(agents[i].hp as int, 0)
        } else {
            0
        },
        None => unset as int,
    }
}

/// The side that has won: the solitary side if it has a living member and
/// the group has none, else the group.
pub open spec fn winner_of(agents: Seq<Agent>) -> Team {
    if has_living(agents, Team::Solo) && !has_living(agents, Team::Group) {
        Team::Solo
    } else {
        Team::Group
    }
}

/// The record of a battle that ended with the roster `agents` after
/// `rounds` rounds, with the counters `causal` kept while it ran.
pub open spec fn summary_of<C>(
    battle_id: usize,
    agents: Seq<Agent>,
    rounds: u32,
    causal: CausalMetrics,
    context: C,
) -> BattleResult<C> {
    BattleResult {
        battle_id,
        winner: winner_of(agents),
        rounds,
        group_casualties: fallen(agents, Team::Group) as u32,
        solo_survived: has_living(agents, Team::Solo),
        context,
        causal: CausalMetrics {
            group_total_damage: team_dealt(agents, Team::Group) as u64,
            group_size: team_size(agents, Team::Group) as usize,
            max_group_damage: team_best(agents, Team::Group) as u32,
            solo_end_hp: solo_health_left(agents, causal.solo_end_hp) as u32,
            ..causal
        },
    }
}

/// Sums up a battle that ended with the roster `agents` after `rounds`
/// rounds: who won, how many of the group fell, whether the solitary side
/// survived, and the counters completed by what the group dealt and by the
/// health left to the solitary side.
pub fn summarize_battle<C>(
    battle_id: usize,
    agents: &Vec<Agent>,
    rounds: u32,
    causal: CausalMetrics,
    context: C,
) -> (result: BattleResult<C>)
    requires
        agents.len() <= u32::MAX,
    ensures
        result == summary_of(battle_id, agents@, rounds, causal, context),
{
    let solo_alive = any_living(agents.as_slice(), Team::Solo);
    let group_alive = any_living(agents.as_slice(), Team::Group);
    let mut casualties: u32 = 0;
    let mut total: u64 = 0;
    let mut size: usize = 0;
    let mut best: u32 = 0;
    let mut solo_hp: Option<u32> = None;
    let mut i: usize = 0;
    while i < agents.len()
        invariant
            i <= agents.len(),
            agents.len() <= u32::MAX,
            casualties == fallen(agents@.take(i as int), Team::Group),
            total == team_dealt(agents@.take(i as int), Team::Group),
            size == team_size(agents@.take(i as int), Team::Group),
            best == team_best(agents@.take(i as int), Team::Group),
            casualties <= i,
            size <= i,
            total <= i * u32::MAX,
            match solo_hp {
                Some(hp) => exists|f: int|
                    0 <= f < i && #[trigger] is_first_of(agents@, Team::Solo, f) && hp == (
                    if agents@[f].alive {
                        max(agents@[f].hp as int, 0)
                    } else {
                        0
                    }),
                None => forall|j: int| 0 <= j < i ==> (#[trigger] agents@[j]).team != Team::Solo,
            },
        decreases agents.len() - i,
    {
        proof {
            assert(agents@.take(i as int + 1).drop_last() =~= agents@.take(i as int));
        }
        let agent = agents[i];
        if agent.team == Team::Group {
            size = size + 1;
            total = total + agent.damage_dealt as u64;
            if agent.damage_dealt > best {
                best = agent.damage_dealt;
            }
            if !agent.alive {
                casualties = casualties + 1;
            }
        } else if solo_hp.is_none() {
            proof {
                assert(is_first_of(agents@, Team::Solo, i as int));
            }
            solo_hp = Some(
                if agent.alive && agent.hp > 0 {
                    agent.hp as u32
                } else {
                    0
                },
            );
        }
        i += 1;
    }
    proof {
        assert(agents@.take(agents.len() as int) =~= agents@);
        match solo_hp {
            Some(hp) => {
                let f = choose|f: int|
                    0 <= f < agents.len() && #[trigger] is_first_of(agents@, Team::Solo, f) && hp
                        == (if agents@[f].alive {
                        max(agents@[f].hp as int, 0)
                    } else {
                        0
                    });
                lemma_first_of_is(agents@, Team::Solo, f);
            },
            None => lemma_first_of_none(agents@, Team::Solo),
        }
    }
    let winner = if solo_alive && !group_alive {
        Team::Solo
    } else {
        Team::Group
    };
    let solo_end_hp = match solo_hp {
        Some(hp) => hp,
        None => causal.solo_end_hp,
    };
    BattleResult {
        battle_id,
        winner,
        rounds,
        group_casualties: casualties,
        solo_survived: solo_alive,
        context,
        causal: CausalMetrics {
            total_critical_hits: causal.total_critical_hits,
            group_total_damage: total,
            group_size: size,
            max_group_damage: best,
            solo_end_hp,
            rounds_engaged: causal.rounds_engaged,
            solo_final_blow: causal.solo_final_blow,
        },
    }
}

/// The cell with the running number `k`, counting column by column and
/// within a column row by row.
pub open spec fn cell_number(k: int) -> (i32, i32) {
    ((k / ARENA_HEIGHT as int) as i32, (k % ARENA_HEIGHT as int) as i32)
}

/// The cells of the grid by their running numbers.
pub open spec fn grid_cells() -> Seq<(i32, i32)> {
    Seq::new(ARENA_CELLS as nat, |k: int| cell_number(k))
}

/// Whether `cells` holds the cells of the grid in some order.
pub open spec fn is_shuffled_grid(cells: Seq<(i32, i32)>) -> bool {
    cells.to_multiset() == grid_cells().to_multiset()
}

/// Lists every cell of the grid once.
pub fn all_cells() -> (cells: Vec<(i32, i32)>)
    ensures
        cells@ == grid_cells(),
        cells@.no_duplicates(),
        forall|k: int| 0 <= k < ARENA_CELLS ==> within_bounds(
            (#[trigger] cells@[k]).0 as int,
            cells@[k].1 as int,
        ),
{
    let mut cells: Vec<(i32, i32)> = Vec::new();
    let mut k: usize = 0;
    while k < ARENA_CELLS
        invariant
            k <= ARENA_CELLS,
            cells.len() == k,
            forall|j: int| 0 <= j < k ==> #[trigger] cells@[j] == cell_number(j),
        decreases ARENA_CELLS - k,
    {
        cells.push(((k / ARENA_HEIGHT as usize) as i32, (k % ARENA_HEIGHT as usize) as i32));
        k += 1;
    }
    proof {
        assert(cells@ =~= grid_cells());
        assert forall|a: int, b: int|
            0 <= a < cells@.len() && 0 <= b < cells@.len() && a != b implies cells@[a]
            != cells@[b] by {
            assert(cells@[a] == cell_number(a));
            assert(cells@[b] == cell_number(b));
        }
    }
    cells
}

/// Whether `agents` is the roster with which a battle of `group_count`
/// against `solo_count` begins: the members of the group first, then the
/// others, numbered in that order, each fresh from its profile, each on a
/// cell of the grid, no two on the same cell.
pub open spec fn is_fresh_roster(
    agents: Seq<Agent>,
    group_profile: AgentProfile,
    solo_profile: AgentProfile,
    group_count: int,
    solo_count: int,
) -> bool {
    &&& agents.len() == group_count + solo_count
    &&& forall|i: int|
        0 <= i < group_count ==> #[trigger] agents[i] == fresh_agent(
            i as usize,
            Team::Group,
            agents[i].x,
            agents[i].y,
            group_profile,
        )
    &&& forall|i: int|
        group_count <= i < agents.len() ==> #[trigger] agents[i] == fresh_agent(
            i as usize,
            Team::Solo,
            agents[i].x,
            agents[i].y,
            solo_profile,
        )
    &&& forall|i: int| 0 <= i < agents.len() ==> (#[trigger] agents[i]).in_arena()
    &&& forall|i: int, j: int|
        0 <= i < agents.len() && 0 <= j < agents.len() && i != j ==> !((#[trigger] agents[i]).x
            == (#[trigger] agents[j]).x && agents[i].y == agents[j].y)
}

/// The roster that is made by giving the agents the last cells of
/// `positions`, the first agent the last cell: the members of the group
/// first, then the others, numbered in that order, each fresh from its
/// profile.
pub open spec fn placed_roster(
    positions: Seq<(i32, i32)>,
    group_profile: AgentProfile,
    solo_profile: AgentProfile,
    group_count: int,
    solo_count: int,
) -> Seq<Agent> {
    Seq::new(
        (group_count + solo_count) as nat,
        |k: int|
            fresh_agent(
                k as usize,
                if k < group_count {
                    Team::Group
                } else {
                    Team::Solo
                },
                positions[positions.len() - 1 - k].0,
                positions[positions.len() - 1 - k].1,
                if k < group_count {
                    group_profile
                } else {
                    solo_profile
                },
            ),
    )
}

/// Makes the roster of a battle on given cells: each agent takes the last
/// of `positions` that is left.
pub fn place_agents(
    positions: &mut Vec<(i32, i32)>,
    group_profile: &AgentProfile,
    solo_profile: &AgentProfile,
    group_count: usize,
    solo_count: usize,
) -> (agents: Vec<Agent>)
    requires
        group_count + solo_count <= old(positions).len(),
    ensures
        agents@ == placed_roster(
            old(positions)@,
            *group_profile,
            *solo_profile,
            group_count as int,
            solo_count as int,
        ),
        final(positions)@ == old(positions)@.take(
            old(positions).len() - group_count - solo_count,
        ),
{
    let ghost given = positions@;
    let total = group_count + solo_count;
    let mut agents: Vec<Agent> = Vec::new();
    let mut i: usize = 0;
    while i < total
        invariant
            i <= total,
            total == group_count + solo_count,
            total <= given.len(),
            positions@ == given.take(given.len() - i),
            agents.len() == i,
            forall|k: int|
                0 <= k < i ==> #[trigger] agents@[k] == placed_roster(
                    given,
                    *group_profile,
                    *solo_profile,
                    group_count as int,
                    solo_count as int,
                )[k],
        decreases total - i,
    {
        let cell = positions.pop();
        proof {
            assert(positions@ =~= given.take(given.len() - i - 1));
        }
        let (x, y) = cell.unwrap();
        let agent = if i < group_count {
            Agent::new_from_profile(i, Team::Group, x, y, group_profile)
        } else {
            Agent::new_from_profile(i, Team::Solo, x, y, solo_profile)
        };
        agents.push(agent);
        i += 1;
    }
    proof {
        assert(agents@ =~= placed_roster(
            given,
            *group_profile,
            *solo_profile,
            group_count as int,
            solo_count as int,
        ));
    }
    agents
}

/// A roster placed on cells of the grid that are all different is a fresh
/// roster.
pub proof fn lemma_placed_roster_is_fresh(
    positions: Seq<(i32, i32)>,
    group_profile: AgentProfile,
    solo_profile: AgentProfile,
    group_count: int,
    solo_count: int,
)
    requires
        0 <= group_count,
        0 <= solo_count,
        group_count + solo_count <= positions.len(),
        positions.no_duplicates(),
        forall|k: int|
            0 <= k < positions.len() ==> within_bounds(
                (#[trigger] positions[k]).0 as int,
                positions[k].1 as int,
            ),
    ensures
        is_fresh_roster(
            placed_roster(positions, group_profile, solo_profile, group_count, solo_count),
            group_profile,
            solo_profile,
            group_count,
            solo_count,
        ),
{
    let agents = placed_roster(positions, group_profile, solo_profile, group_count, solo_count);
    assert forall|a: int, b: int|
        0 <= a < agents.len() && 0 <= b < agents.len() && a != b implies !((
    #[trigger] agents[a]).x == (#[trigger] agents[b]).x && agents[a].y == agents[b].y) by {
        let ca = positions[positions.len() - 1 - a];
        let cb = positions[positions.len() - 1 - b];
        assert(ca != cb);
    }
    assert forall|k: int| 0 <= k < agents.len() implies (#[trigger] agents[k]).in_arena() by {
        let c = positions[positions.len() - 1 - k];
        assert(within_bounds(c.0 as int, c.1 as int));
    }
}

/// Sets up the roster of a battle: `group_count` members of the group made
/// from `group_profile`, then `solo_count` of the other side made from
/// `solo_profile`, on cells drawn so that no two agents share one.
///
/// The cells of the grid are listed and shuffled, and the agents are placed
/// on the last of them as `place_agents` does.
pub fn init_agents(
    group_profile: &AgentProfile,
    solo_profile: &AgentProfile,
    group_count: usize,
    solo_count: usize,
    rng: &mut StdRng,
) -> (agents: Vec<Agent>)
    requires
        group_count + solo_count <= ARENA_CELLS,
    ensures
        exists|drawn: Seq<(i32, i32)>|
            #[trigger] is_shuffled_grid(drawn) && agents@ == placed_roster(
                drawn,
                *group_profile,
                *solo_profile,
                group_count as int,
                solo_count as int,
            ),
        is_fresh_roster(
            agents@,
            *group_profile,
            *solo_profile,
            group_count as int,
            solo_count as int,
        ),
{
    let mut positions = all_cells();
    let ghost grid = positions@;
    shuffle(&mut positions, rng);
    let ghost drawn = positions@;
    proof {
        lemma_shuffle_keeps(grid, drawn);
        assert forall|k: int| 0 <= k < drawn.len() implies within_bounds(
            (#[trigger] drawn[k]).0 as int,
            drawn[k].1 as int,
        ) by {
            assert(drawn.contains(drawn[k]));
            let w = choose|w: int| 0 <= w < grid.len() && grid[w] == drawn[k];
            assert(within_bounds(grid[w].0 as int, grid[w].1 as int));
        }
        lemma_placed_roster_is_fresh(
            drawn,
            *group_profile,
            *solo_profile,
            group_count as int,
            solo_count as int,
        );
        assert(is_shuffled_grid(drawn));
    }
    place_agents(&mut positions, group_profile, solo_profile, group_count, solo_count)
}

/// Rounds without damage at the end of a log are not rounds in which damage
/// was dealt.
pub proof fn lemma_engaged_before_idle_tail(log: Seq<i32>, tail: int)
    requires
        0 <= tail <= log.len(),
        forall|r: int| log.len() - tail <= r < log.len() ==> #[trigger] log[r] == 0,
    ensures
        0 <= engaged_rounds(log) <= log.len() - tail,
    decreases log.len(),
{
    if log.len() > 0 {
        if tail > 0 {
            assert(log[log.len() - 1] == 0);
            assert forall|r: int|
                log.drop_last().len() - (tail - 1) <= r < log.drop_last().len() implies (
            #[trigger] log.drop_last()[r]) == 0 by {
                assert(log[r] == 0);
            }
            lemma_engaged_before_idle_tail(log.drop_last(), tail - 1);
        } else {
            lemma_engaged_before_idle_tail(log.drop_last(), 0);
        }
    }
}

/// One battle from setup to the end of its rounds: the roster it began
/// with, the roster and the counters it ended with, and the damage of each
/// round.
pub struct BattleRun {
    pub start: Seq<Agent>,
    pub end: Seq<Agent>,
    pub causal: CausalMetrics,
    pub log: Seq<i32>,
}

/// Whether `result` is the record of the battle `run`: the battle began
/// with a fresh roster and blank counters, its rounds were run as
/// `rounds_possible` and `rounds_effects` say, and the record sums up how it
/// ended.
pub open spec fn battle_played<C>(
    run: BattleRun,
    result: BattleResult<C>,
    battle_id: usize,
    group_profile: AgentProfile,
    solo_profile: AgentProfile,
    group_count: int,
    solo_count: int,
    context: C,
) -> bool {
    &&& is_fresh_roster(run.start, group_profile, solo_profile, group_count, solo_count)
    &&& rounds_possible(run.start, run.end, CausalMetrics::blank(), run.causal, run.log)
    &&& rounds_effects(run.start, run.end, CausalMetrics::blank(), run.causal, run.log)
    &&& result == summary_of(battle_id, run.end, run.log.len() as u32, run.causal, context)
}

/// Whether `result` is the record of some battle of `group_count` against
/// `solo_count`.
pub open spec fn battle_possible<C>(
    result: BattleResult<C>,
    battle_id: usize,
    group_profile: AgentProfile,
    solo_profile: AgentProfile,
    group_count: int,
    solo_count: int,
    context: C,
) -> bool {
    exists|run: BattleRun|
        battle_played(
            run,
            result,
            battle_id,
            group_profile,
            solo_profile,
            group_count,
            solo_count,
            context,
        )
}

/// What every possible battle of `group_count` against `solo_count` has in
/// common, whatever is drawn.
///
/// The record carries the identity and the context it was given. The battle
/// has run at most `MAX_ROUNDS` rounds, and none if a side had no member to
/// begin with; then nobody has fallen and the counters are blank but for
/// the size of the group and the health of the solitary fighter. No more of
/// the group have fallen than it has members. The solitary side has won
/// exactly when it has survived and the whole group has fallen. A single
/// solitary fighter has survived exactly when it has health left. A battle
/// that ended before the cap with both sides alive is a stalemate: its last
/// `STALEMATE_ROUNDS` rounds dealt no damage.
pub open spec fn outcome_effects<C>(
    result: BattleResult<C>,
    battle_id: usize,
    solo_profile: AgentProfile,
    group_count: int,
    solo_count: int,
    context: C,
) -> bool {
    &&& result.battle_id == battle_id
    &&& result.context == context
    &&& result.rounds <= MAX_ROUNDS
    &&& result.group_casualties <= group_count
    &&& result.causal.group_size == group_count
    &&& (result.winner == Team::Solo <==> result.solo_survived && result.group_casualties
        == group_count)
    &&& (solo_count == 0 ==> !result.solo_survived && result.causal.solo_end_hp == 0)
    &&& (group_count == 0 || solo_count == 0 ==> {
        &&& result.rounds == 0
        &&& result.group_casualties == 0
        &&& result.causal == (CausalMetrics {
            group_size: group_count as usize,
            solo_end_hp: result.causal.solo_end_hp,
            ..CausalMetrics::blank()
        })
        &&& (solo_count > 0 ==> result.solo_survived && result.causal.solo_end_hp
            == solo_profile.hp)
    })
    &&& (solo_count == 1 ==> (result.solo_survived <==> result.causal.solo_end_hp > 0))
    &&& result.causal.solo_end_hp <= solo_profile.hp
    &&& result.causal.rounds_engaged <= result.rounds
    &&& result.causal.max_group_damage <= result.causal.group_total_damage
    &&& result.causal.max_group_damage <= result.rounds * MAX_HIT
    &&& result.causal.group_total_damage <= result.rounds * (ARENA_CELLS * MAX_HIT)
    &&& result.causal.total_critical_hits <= result.rounds * ARENA_CELLS
    &&& (result.rounds < MAX_ROUNDS && result.solo_survived && result.group_casualties
        < group_count ==> result.rounds >= STALEMATE_ROUNDS + result.causal.rounds_engaged)
}

/// The record of a battle that began with a fresh roster and ran as
/// `rounds_effects` says is as `outcome_effects` says.
pub proof fn lemma_battle_outcome<C>(
    start: Seq<Agent>,
    end: Seq<Agent>,
    causal_end: CausalMetrics,
    log: Seq<i32>,
    battle_id: usize,
    group_profile: AgentProfile,
    solo_profile: AgentProfile,
    group_count: int,
    solo_count: int,
    context: C,
)
    requires
        group_profile.usable(),
        solo_profile.usable(),
        0 <= group_count,
        0 <= solo_count,
        group_count + solo_count <= ARENA_CELLS,
        is_fresh_roster(start, group_profile, solo_profile, group_count, solo_count),
        rounds_effects(start, end, CausalMetrics::blank(), causal_end, log),
    ensures
        outcome_effects(
            summary_of(battle_id, end, log.len() as u32, causal_end, context),
            battle_id,
            solo_profile,
            group_count,
            solo_count,
            context,
        ),
{
    let result = summary_of(battle_id, end, log.len() as u32, causal_end, context);
    let rounds = log.len() as int;
    lemma_team_size_of_halves(start, group_count);
    lemma_team_size_step(start, end, Team::Group);
    lemma_team_size_step(start, end, Team::Solo);
    lemma_fallen_bounds(end, Team::Group);
    lemma_fallen_bounds(end, Team::Solo);
    lemma_fallen_all(end, Team::Group);
    lemma_fallen_all(end, Team::Solo);
    lemma_team_dealt_bounds(end, Team::Group);
    assert(dealt_at_most(start, 0));
    lemma_total_dealt_zero(start);
    assert(dealt_at_most(end, rounds * MAX_HIT)) by {
        assert forall|j: int| 0 <= j < end.len() implies (#[trigger] end[j]).damage_dealt <= rounds
            * MAX_HIT by {
            assert(start[j].damage_dealt == 0);
        }
    }
    lemma_team_best_at_most(end, Team::Group, rounds * MAX_HIT);
    lemma_total_dealt_at_most(end, rounds * MAX_HIT);
    assert(end.len() * (rounds * MAX_HIT) <= rounds * (ARENA_CELLS * MAX_HIT))
        by (nonlinear_arith)
        requires
            0 <= rounds,
            0 <= end.len() <= ARENA_CELLS,
    ;
    if group_count == 0 || solo_count == 0 {
        lemma_fallen_all(start, Team::Group);
        lemma_fallen_all(start, Team::Solo);
        lemma_fallen_bounds(start, Team::Group);
        lemma_fallen_bounds(start, Team::Solo);
        assert(!battle_active(start));
        assert(end == start);
        lemma_fallen_none(start, Team::Group);
        lemma_fallen_none(start, Team::Solo);
    }
    if solo_count == 0 {
        assert forall|j: int| 0 <= j < end.len() implies (#[trigger] end[j]).team
            != Team::Solo by {
            assert(agent_step(start[j], end[j]));
        }
        lemma_first_of_none(end, Team::Solo);
    } else {
        assert(is_first_of(end, Team::Solo, group_count)) by {
            assert(agent_step(start[group_count], end[group_count]));
            assert forall|j: int| 0 <= j < group_count implies (#[trigger] end[j]).team
                != Team::Solo by {
                assert(agent_step(start[j], end[j]));
            }
        }
        lemma_first_of_is(end, Team::Solo, group_count);
        assert(agent_step(start[group_count], end[group_count]));
        assert(fit_to_fight(end[group_count]));
        if solo_count == 1 {
            if has_living(end, Team::Solo) {
                let w = choose|i: int|
                    0 <= i < end.len() && (#[trigger] end[i]).team == Team::Solo && end[i].alive;
                assert(agent_step(start[w], end[w]));
                assert(w == group_count);
            }
            if end[group_count].alive {
                assert(end[group_count].team == Team::Solo && end[group_count].alive);
            }
        }
    }
    if rounds < MAX_ROUNDS && result.solo_survived && result.group_casualties < group_count {
        assert(battle_active(end));
        assert(idle_window(log, rounds));
        lemma_engaged_before_idle_tail(log, STALEMATE_ROUNDS as int);
    }
}

/// Runs the battle with the identity `battle_id` of a batch: a battle of
/// `group_count` members of the group against `solo_count` of the other
/// side, with a generator of its own made from `seed`. `context` is attached
/// to the record as it is.
pub fn run_single_simulation<C>(
    battle_id: usize,
    group_profile: &AgentProfile,
    solo_profile: &AgentProfile,
    group_count: usize,
    solo_count: usize,
    context: C,
    seed: u64,
) -> (result: BattleResult<C>)
    requires
        group_profile.usable(),
        solo_profile.usable(),
        group_count + solo_count <= ARENA_CELLS,
    ensures
        battle_possible(
            result,
            battle_id,
            *group_profile,
            *solo_profile,
            group_count as int,
            solo_count as int,
            context,
        ),
        outcome_effects(
            result,
            battle_id,
            *solo_profile,
            group_count as int,
            solo_count as int,
            context,
        ),
{
    let mut rng = seeded(seed);
    run_battle(
        battle_id,
        group_profile,
        solo_profile,
        group_count,
        solo_count,
        context,
        &mut rng,
    )
}

} // verus!
