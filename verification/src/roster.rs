//! Statements about all the agents of a battle together, and the lemmas that
//! carry them from one turn to the next.

use crate::agents::{fit_to_fight, manhattan};
use crate::arena::ARENA_CELLS;
use crate::models::{Agent, Team};
use vstd::prelude::*;

verus! {

/// Whether some agent of `team` lives.
pub open spec fn has_living(agents: Seq<Agent>, team: Team) -> bool {
    exists|i: int| 0 <= i < agents.len() && (#[trigger] agents[i]).team == team && agents[i].alive
}

/// A battle goes on while both teams have a living member.
pub open spec fn battle_active(agents: Seq<Agent>) -> bool {
    has_living(agents, Team::Group) && has_living(agents, Team::Solo)
}

/// The damage dealt so far by all agents together.
pub open spec fn total_dealt(agents: Seq<Agent>) -> int
    decreases agents.len(),
{
    if agents.len() == 0 {
        0
    } else {
        total_dealt(agents.drop_last()) + agents.last().damage_dealt
    }
}

/// Whether `other` helps `me`, a member of the group: a living member of the
/// group, not `me` itself, at most two cells away.
pub open spec fn is_nearby_ally(me: Agent, other: Agent) -> bool {
    other.team == Team::Group && other.alive && other.id != me.id && manhattan(me, other) <= 2
}

/// How many of `agents` help `me`.
pub open spec fn nearby_allies(me: Agent, agents: Seq<Agent>) -> int
    decreases agents.len(),
{
    if agents.len() == 0 {
        0
    } else {
        nearby_allies(me, agents.drop_last()) + if is_nearby_ally(me, agents.last()) {
            1int
        } else {
            0int
        }
    }
}

/// How many living allies are near the agent at index `i`: counted for a
/// member of the group, none for the solitary side.
pub open spec fn allies_of(agents: Seq<Agent>, i: int) -> int {
    match agents[i].team {
        Team::Group => nearby_allies(agents[i], agents),
        Team::Solo => 0,
    }
}

/// How many of `agents` belong to `team`.
pub open spec fn team_size(agents: Seq<Agent>, team: Team) -> int
    decreases agents.len(),
{
    if agents.len() == 0 {
        0
    } else {
        team_size(agents.drop_last(), team) + if agents.last().team == team {
            1int
        } else {
            0int
        }
    }
}

/// How many members of `team` are dead.
pub open spec fn fallen(agents: Seq<Agent>, team: Team) -> int
    decreases agents.len(),
{
    if agents.len() == 0 {
        0
    } else {
        fallen(agents.drop_last(), team) + if agents.last().team == team && !agents.last().alive {
            1int
        } else {
            0int
        }
    }
}

/// The damage dealt so far by all members of `team` together.
pub open spec fn team_dealt(agents: Seq<Agent>, team: Team) -> int
    decreases agents.len(),
{
    if agents.len() == 0 {
        0
    } else {
        team_dealt(agents.drop_last(), team) + if agents.last().team == team {
            agents.last().damage_dealt as int
        } else {
            0int
        }
    }
}

/// The most damage dealt so far by one member of `team`; zero for a team
/// without members.
pub open spec fn team_best(agents: Seq<Agent>, team: Team) -> int
    decreases agents.len(),
{
    if agents.len() == 0 {
        0
    } else {
        let rest = team_best(agents.drop_last(), team);
        if agents.last().team == team && agents.last().damage_dealt > rest {
            agents.last().damage_dealt as int
        } else {
            rest
        }
    }
}

/// Whether `agents[i]` is the first member of `team` in the order of
/// `agents`.
pub open spec fn is_first_of(agents: Seq<Agent>, team: Team, i: int) -> bool {
    &&& 0 <= i < agents.len()
    &&& agents[i].team == team
    &&& forall|j: int| 0 <= j < i ==> (#[trigger] agents[j]).team != team
}

/// The index of the first member of `team`, if it has a member.
pub open spec fn first_of(agents: Seq<Agent>, team: Team) -> Option<int> {
    if exists|i: int| is_first_of(agents, team, i) {
        Some(choose|i: int| is_first_of(agents, team, i))
    } else {
        None
    }
}

/// A roster that a battle can be fought with: no more agents than the grid
/// has cells, each of them fit.
pub open spec fn roster_fit(agents: Seq<Agent>) -> bool {
    &&& agents.len() <= ARENA_CELLS
    &&& forall|i: int| 0 <= i < agents.len() ==> fit_to_fight(#[trigger] agents[i])
}

/// No agent has dealt more than `limit` so far.
pub open spec fn dealt_at_most(agents: Seq<Agent>, limit: int) -> bool {
    forall|i: int| 0 <= i < agents.len() ==> (#[trigger] agents[i]).damage_dealt <= limit
}

/// How an agent may differ between two moments of one battle, the second not
/// before the first. Its identity and stats are fixed, the damage it dealt
/// never shrinks, its health never grows, it never leaves the grid, and once
/// dead nothing about it changes any more.
pub open spec fn agent_step(a: Agent, b: Agent) -> bool {
    &&& b.id == a.id
    &&& b.team == a.team
    &&& b.str_ == a.str_
    &&& b.spd == a.spd
    &&& b.def == a.def
    &&& b.base_damage == a.base_damage
    &&& b.crit_chance == a.crit_chance
    &&& b.damage_dealt >= a.damage_dealt
    &&& b.hp <= a.hp
    &&& (!a.alive ==> b == a)
    &&& (a.consistent() ==> b.consistent())
    &&& (a.in_arena() ==> b.in_arena())
}

/// How a roster may differ between two moments of one battle: agent by agent
/// as `agent_step` says.
pub open spec fn roster_step(before: Seq<Agent>, after: Seq<Agent>) -> bool {
    &&& after.len() == before.len()
    &&& forall|i: int| 0 <= i < before.len() ==> agent_step(#[trigger] before[i], after[i])
}

/// Whether the agent at index `j` died between two moments of a battle.
pub open spec fn died(before: Seq<Agent>, after: Seq<Agent>, j: int) -> bool {
    0 <= j < before.len() && before[j].alive && !after[j].alive
}

/// Whether the mark of the last fatal blow went from `mark_before` to
/// `mark_after` as the deaths between `before` and `after` allow. Without a
/// death the mark stands. With one, the mark says which side dealt the last
/// fatal blow, and an agent of the other side is among the dead.
pub open spec fn final_blow_follows(
    before: Seq<Agent>,
    after: Seq<Agent>,
    mark_before: bool,
    mark_after: bool,
) -> bool {
    if forall|j: int| !#[trigger] died(before, after, j) {
        mark_after == mark_before
    } else if mark_after {
        exists|j: int| #[trigger] died(before, after, j) && before[j].team == Team::Group
    } else {
        exists|j: int| #[trigger] died(before, after, j) && before[j].team == Team::Solo
    }
}

/// Nothing happening is a step.
pub proof fn lemma_roster_step_reflexive(agents: Seq<Agent>)
    ensures
        roster_step(agents, agents),
{
}

/// Steps chain.
pub proof fn lemma_roster_step_transitive(a: Seq<Agent>, b: Seq<Agent>, c: Seq<Agent>)
    requires
        roster_step(a, b),
        roster_step(b, c),
    ensures
        roster_step(a, c),
{
    assert forall|i: int| 0 <= i < a.len() implies agent_step(#[trigger] a[i], c[i]) by {
        assert(agent_step(a[i], b[i]));
        assert(agent_step(b[i], c[i]));
    }
}

/// Replacing one agent changes the total by what its own count changes.
pub proof fn lemma_total_dealt_update(agents: Seq<Agent>, i: int, a: Agent)
    requires
        0 <= i < agents.len(),
    ensures
        total_dealt(agents.update(i, a)) == total_dealt(agents) - agents[i].damage_dealt
            + a.damage_dealt,
    decreases agents.len(),
{
    let changed = agents.update(i, a);
    if i == agents.len() - 1 {
        assert(changed.drop_last() =~= agents.drop_last());
    } else {
        assert(changed.drop_last() =~= agents.drop_last().update(i, a));
        lemma_total_dealt_update(agents.drop_last(), i, a);
    }
}

/// Every agent belongs to one of the two teams.
pub proof fn lemma_team_sizes(agents: Seq<Agent>)
    ensures
        team_size(agents, Team::Group) >= 0,
        team_size(agents, Team::Solo) >= 0,
        team_size(agents, Team::Group) + team_size(agents, Team::Solo) == agents.len(),
    decreases agents.len(),
{
    if agents.len() > 0 {
        lemma_team_sizes(agents.drop_last());
    }
}

/// Marks of the last fatal blow chain as the steps of the roster do.
pub proof fn lemma_final_blow_chain(
    a: Seq<Agent>,
    b: Seq<Agent>,
    c: Seq<Agent>,
    mark_a: bool,
    mark_b: bool,
    mark_c: bool,
)
    requires
        roster_step(a, b),
        roster_step(b, c),
        final_blow_follows(a, b, mark_a, mark_b),
        final_blow_follows(b, c, mark_b, mark_c),
    ensures
        final_blow_follows(a, c, mark_a, mark_c),
{
    assert forall|j: int| #[trigger] died(a, c, j) == (died(a, b, j) || died(b, c, j)) by {
        if 0 <= j < a.len() {
            assert(agent_step(a[j], b[j]));
            assert(agent_step(b[j], c[j]));
        }
    }
    assert forall|j: int| 0 <= j < a.len() implies (#[trigger] b[j]).team == a[j].team by {
        assert(agent_step(a[j], b[j]));
    }
    if forall|j: int| !#[trigger] died(b, c, j) {
        if !(forall|j: int| !#[trigger] died(a, b, j)) {
            if mark_b {
                let w = choose|j: int| #[trigger] died(a, b, j) && a[j].team == Team::Group;
                assert(died(a, c, w));
            } else {
                let w = choose|j: int| #[trigger] died(a, b, j) && a[j].team == Team::Solo;
                assert(died(a, c, w));
            }
        }
    } else {
        if mark_c {
            let w = choose|j: int| #[trigger] died(b, c, j) && b[j].team == Team::Group;
            assert(died(a, c, w));
        } else {
            let w = choose|j: int| #[trigger] died(b, c, j) && b[j].team == Team::Solo;
            assert(died(a, c, w));
        }
    }
}

/// At most one index is that of the first member, so `first_of` names it.
pub proof fn lemma_first_of_is(agents: Seq<Agent>, team: Team, i: int)
    requires
        is_first_of(agents, team, i),
    ensures
        first_of(agents, team) == Some(i),
{
    let u = choose|u: int| is_first_of(agents, team, u);
    if u < i {
        assert(agents[u].team != team);
    } else if i < u {
        assert(agents[i].team != team);
    }
}

/// A team without members has no first member.
pub proof fn lemma_first_of_none(agents: Seq<Agent>, team: Team)
    requires
        forall|j: int| 0 <= j < agents.len() ==> (#[trigger] agents[j]).team != team,
    ensures
        first_of(agents, team) is None,
{
}

/// No more members of a team are dead than it has.
pub proof fn lemma_fallen_bounds(agents: Seq<Agent>, team: Team)
    ensures
        0 <= fallen(agents, team) <= team_size(agents, team) <= agents.len(),
    decreases agents.len(),
{
    if agents.len() > 0 {
        lemma_fallen_bounds(agents.drop_last(), team);
    }
}

/// All members of a team are dead exactly when none lives.
pub proof fn lemma_fallen_all(agents: Seq<Agent>, team: Team)
    ensures
        fallen(agents, team) == team_size(agents, team) <==> !has_living(agents, team),
    decreases agents.len(),
{
    if agents.len() > 0 {
        let rest = agents.drop_last();
        lemma_fallen_all(rest, team);
        lemma_fallen_bounds(rest, team);
        if has_living(rest, team) {
            let w = choose|i: int|
                0 <= i < rest.len() && (#[trigger] rest[i]).team == team && rest[i].alive;
            assert(agents[w].team == team && agents[w].alive);
        }
        if agents.last().team == team && agents.last().alive {
            assert(agents[agents.len() - 1].team == team && agents[agents.len() - 1].alive);
        }
        if has_living(agents, team) {
            let w = choose|i: int|
                0 <= i < agents.len() && (#[trigger] agents[i]).team == team && agents[i].alive;
            if w < rest.len() {
                assert(rest[w].team == team && rest[w].alive);
            }
        }
    }
}

/// A team keeps its size while a battle runs.
pub proof fn lemma_team_size_step(before: Seq<Agent>, after: Seq<Agent>, team: Team)
    requires
        roster_step(before, after),
    ensures
        team_size(after, team) == team_size(before, team),
    decreases before.len(),
{
    if before.len() > 0 {
        assert(agent_step(before[before.len() - 1], after[before.len() - 1]));
        assert(roster_step(before.drop_last(), after.drop_last())) by {
            assert forall|i: int| 0 <= i < before.drop_last().len() implies agent_step(
                #[trigger] before.drop_last()[i],
                after.drop_last()[i],
            ) by {
                assert(agent_step(before[i], after[i]));
            }
        }
        lemma_team_size_step(before.drop_last(), after.drop_last(), team);
    }
}

/// What a team has dealt lies between what its best member has dealt and
/// what all agents have dealt.
pub proof fn lemma_team_dealt_bounds(agents: Seq<Agent>, team: Team)
    ensures
        0 <= team_best(agents, team) <= team_dealt(agents, team) <= total_dealt(agents),
    decreases agents.len(),
{
    if agents.len() > 0 {
        lemma_team_dealt_bounds(agents.drop_last(), team);
    }
}

/// While all agents live, none has fallen.
pub proof fn lemma_fallen_none(agents: Seq<Agent>, team: Team)
    requires
        forall|i: int| 0 <= i < agents.len() ==> (#[trigger] agents[i]).alive,
    ensures
        fallen(agents, team) == 0,
    decreases agents.len(),
{
    if agents.len() > 0 {
        assert(agents[agents.len() - 1].alive);
        assert forall|i: int| 0 <= i < agents.drop_last().len() implies (
        #[trigger] agents.drop_last()[i]).alive by {
            assert(agents[i].alive);
        }
        lemma_fallen_none(agents.drop_last(), team);
    }
}

/// Where no agent has dealt more than `limit`, no team's best has.
pub proof fn lemma_team_best_at_most(agents: Seq<Agent>, team: Team, limit: int)
    requires
        limit >= 0,
        dealt_at_most(agents, limit),
    ensures
        team_best(agents, team) <= limit,
    decreases agents.len(),
{
    if agents.len() > 0 {
        assert(agents[agents.len() - 1].damage_dealt <= limit);
        assert(dealt_at_most(agents.drop_last(), limit)) by {
            assert forall|i: int| 0 <= i < agents.drop_last().len() implies (
            #[trigger] agents.drop_last()[i]).damage_dealt <= limit by {
                assert(agents[i].damage_dealt <= limit);
            }
        }
        lemma_team_best_at_most(agents.drop_last(), team, limit);
    }
}

/// Where no agent has dealt more than `limit`, all together have dealt no
/// more than their number times `limit`.
pub proof fn lemma_total_dealt_at_most(agents: Seq<Agent>, limit: int)
    requires
        dealt_at_most(agents, limit),
    ensures
        total_dealt(agents) <= agents.len() * limit,
    decreases agents.len(),
{
    if agents.len() > 0 {
        assert(agents[agents.len() - 1].damage_dealt <= limit);
        assert(dealt_at_most(agents.drop_last(), limit)) by {
            assert forall|i: int| 0 <= i < agents.drop_last().len() implies (
            #[trigger] agents.drop_last()[i]).damage_dealt <= limit by {
                assert(agents[i].damage_dealt <= limit);
            }
        }
        lemma_total_dealt_at_most(agents.drop_last(), limit);
        assert(agents.len() * limit == (agents.len() - 1) * limit + limit) by (nonlinear_arith);
    }
}

/// Where no agent has dealt anything, the total is zero.
pub proof fn lemma_total_dealt_zero(agents: Seq<Agent>)
    requires
        dealt_at_most(agents, 0),
    ensures
        total_dealt(agents) == 0,
    decreases agents.len(),
{
    if agents.len() > 0 {
        assert(agents[agents.len() - 1].damage_dealt <= 0);
        assert(dealt_at_most(agents.drop_last(), 0)) by {
            assert forall|i: int| 0 <= i < agents.drop_last().len() implies (
            #[trigger] agents.drop_last()[i]).damage_dealt <= 0 by {
                assert(agents[i].damage_dealt <= 0);
            }
        }
        lemma_total_dealt_zero(agents.drop_last());
    }
}

/// A roster that begins with `groups` members of the group and goes on with
/// members of the other side has `groups` members of the group.
pub proof fn lemma_team_size_of_halves(agents: Seq<Agent>, groups: int)
    requires
        0 <= groups <= agents.len(),
        forall|i: int| 0 <= i < groups ==> (#[trigger] agents[i]).team == Team::Group,
        forall|i: int| groups <= i < agents.len() ==> (#[trigger] agents[i]).team == Team::Solo,
    ensures
        team_size(agents, Team::Group) == groups,
        team_size(agents, Team::Solo) == agents.len() - groups,
    decreases agents.len(),
{
    if agents.len() > 0 {
        let rest = agents.drop_last();
        let last = agents.len() - 1;
        assert forall|i: int| 0 <= i < rest.len() implies (#[trigger] rest[i]).team
            == agents[i].team by {}
        if groups == agents.len() {
            assert(agents[last].team == Team::Group);
            assert forall|i: int| 0 <= i < groups - 1 implies (#[trigger] rest[i]).team
                == Team::Group by {
                assert(agents[i].team == Team::Group);
            }
            lemma_team_size_of_halves(rest, groups - 1);
        } else {
            assert(agents[last].team == Team::Solo);
            assert forall|i: int| 0 <= i < groups implies (#[trigger] rest[i]).team
                == Team::Group by {
                assert(agents[i].team == Team::Group);
            }
            assert forall|i: int| groups <= i < rest.len() implies (#[trigger] rest[i]).team
                == Team::Solo by {
                assert(agents[i].team == Team::Solo);
            }
            lemma_team_size_of_halves(rest, groups);
        }
    }
}

/// A count is never negative.
pub proof fn lemma_nearby_allies_bounds(me: Agent, agents: Seq<Agent>)
    ensures
        0 <= nearby_allies(me, agents) <= agents.len(),
    decreases agents.len(),
{
    if agents.len() > 0 {
        lemma_nearby_allies_bounds(me, agents.drop_last());
    }
}

/// Decides whether some agent of `team` lives.
pub fn any_living(agents: &[Agent], team: Team) -> (found: bool)
    ensures
        found == has_living(agents@, team),
{
    let mut i: usize = 0;
    while i < agents.len()
        invariant
            i <= agents@.len(),
            forall|j: int|
                0 <= j < i ==> !((#[trigger] agents@[j]).team == team && agents@[j].alive),
        decreases agents@.len() - i,
    {
        if agents[i].team == team && agents[i].alive {
            return true;
        }
        i += 1;
    }
    false
}

/// Counts the agents that help `agents[i]`.
pub fn count_nearby_allies(agents: &Vec<Agent>, i: usize) -> (count: i32)
    requires
        i < agents.len(),
        agents.len() <= i32::MAX,
    ensures
        count == nearby_allies(agents@[i as int], agents@),
        0 <= count <= agents.len(),
{
    let me = agents[i];
    let mut count: i32 = 0;
    let mut j: usize = 0;
    while j < agents.len()
        invariant
            j <= agents.len(),
            agents.len() <= i32::MAX,
            me == agents@[i as int],
            count == nearby_allies(me, agents@.take(j as int)),
            0 <= count <= j,
        decreases agents.len() - j,
    {
        proof {
            assert(agents@.take(j as int + 1).drop_last() =~= agents@.take(j as int));
        }
        let other = agents[j];
        if other.team == Team::Group && other.alive && other.id != me.id && me.span_to(&other)
            <= 2 {
            count += 1;
        }
        j += 1;
    }
    proof {
        assert(agents@.take(agents.len() as int) =~= agents@);
    }
    count
}

} // verus!
