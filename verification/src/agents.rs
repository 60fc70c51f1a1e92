//! What a single agent does: it is made from a profile, measures distances,
//! picks the nearest living enemy, steps towards a cell and takes damage.

use crate::arena::{clamped, hold_to, within_bounds, ARENA_HEIGHT, ARENA_WIDTH};
use crate::character_profiles::{stat_in_range, AgentProfile};
use crate::combat::{
    attack_damage, attack_is_critical, attack_lands, blow_damage, crit_threshold,
    effective_defense, effective_speed, effective_stats, effective_strength, fatigue,
    hit_chance, jitter_spans, lemma_blow_damage_bounds, lemma_effective_stats_bounds, MAX_HIT,
};
use crate::dice::roll;
use crate::models::{Agent, Team};
use rand::rngs::StdRng;
use vstd::math::abs;
use vstd::prelude::*;

verus! {

/// Manhattan distance between the cells of two agents.
pub open spec fn manhattan(a: Agent, b: Agent) -> int {
    (abs(a.x - b.x) + abs(a.y - b.y)) as int
}

/// Whether `other` is a target that `me` may pick: alive and on the other team.
pub open spec fn is_living_enemy(me: Agent, other: Agent) -> bool {
    other.alive && other.team != me.team
}

/// Whether `agents[t]` is the target of `me`: a living enemy at the least
/// distance, and the first such in the order of `agents`.
pub open spec fn is_nearest_enemy(me: Agent, agents: Seq<Agent>, t: int) -> bool {
    &&& 0 <= t < agents.len()
    &&& is_living_enemy(me, agents[t])
    &&& forall|j: int|
        0 <= j < agents.len() && is_living_enemy(me, #[trigger] agents[j]) ==> manhattan(
            me,
            agents[t],
        ) <= manhattan(me, agents[j])
    &&& forall|j: int|
        0 <= j < t && is_living_enemy(me, #[trigger] agents[j]) ==> manhattan(me, agents[t])
            < manhattan(me, agents[j])
}

/// The index of the target of `me` among `agents`, if there is a living enemy.
pub open spec fn nearest_enemy(me: Agent, agents: Seq<Agent>) -> Option<int> {
    if exists|t: int| is_nearest_enemy(me, agents, t) {
        Some(choose|t: int| is_nearest_enemy(me, agents, t))
    } else {
        None
    }
}

/// A machine index as a mathematical one.
pub open spec fn as_index(target: Option<usize>) -> Option<int> {
    match target {
        Some(t) => Some(t as int),
        None => None,
    }
}

/// At most one index is the target of `me`, so `nearest_enemy` names it.
pub proof fn lemma_nearest_enemy_is(me: Agent, agents: Seq<Agent>, t: int)
    requires
        is_nearest_enemy(me, agents, t),
    ensures
        nearest_enemy(me, agents) == Some(t),
{
    let u = choose|u: int| is_nearest_enemy(me, agents, u);
    if u < t {
        assert(manhattan(me, agents[t]) < manhattan(me, agents[u]));
    } else if t < u {
        assert(manhattan(me, agents[u]) < manhattan(me, agents[t]));
    }
}

/// Without a living enemy there is no target.
pub proof fn lemma_no_enemy_no_target(me: Agent, agents: Seq<Agent>)
    requires
        forall|j: int| 0 <= j < agents.len() ==> !is_living_enemy(me, #[trigger] agents[j]),
    ensures
        nearest_enemy(me, agents) is None,
{
}

/// The target among `seen` is still the target when an agent is added that
/// is no living enemy, or is not nearer than the target.
pub proof fn lemma_nearest_enemy_kept(me: Agent, seen: Seq<Agent>, added: Agent, t: int)
    requires
        is_nearest_enemy(me, seen, t),
        !is_living_enemy(me, added) || manhattan(me, seen[t]) <= manhattan(me, added),
    ensures
        is_nearest_enemy(me, seen.push(added), t),
{
    let next = seen.push(added);
    assert(next[t] == seen[t]);
    assert forall|j: int|
        0 <= j < next.len() && is_living_enemy(me, #[trigger] next[j]) implies manhattan(
        me,
        next[t],
    ) <= manhattan(me, next[j]) by {
        if j < seen.len() {
            assert(next[j] == seen[j]);
        }
    }
    assert forall|j: int| 0 <= j < t && is_living_enemy(me, #[trigger] next[j]) implies manhattan(
        me,
        next[t],
    ) < manhattan(me, next[j]) by {
        assert(next[j] == seen[j]);
    }
}

/// A living enemy that is added and is nearer than the target among `seen`,
/// or is the first living enemy, is the target.
pub proof fn lemma_nearer_enemy_found(me: Agent, seen: Seq<Agent>, added: Agent)
    requires
        is_living_enemy(me, added),
        forall|t: int|
            is_nearest_enemy(me, seen, t) ==> manhattan(me, added) < manhattan(me, seen[t]),
        (forall|j: int| 0 <= j < seen.len() ==> !is_living_enemy(me, #[trigger] seen[j])) || (
        exists|t: int| is_nearest_enemy(me, seen, t)),
    ensures
        is_nearest_enemy(me, seen.push(added), seen.len() as int),
{
    let next = seen.push(added);
    assert forall|j: int| 0 <= j < seen.len() && is_living_enemy(
        me,
        #[trigger] next[j],
    ) implies manhattan(me, added) < manhattan(me, next[j]) by {
        assert(next[j] == seen[j]);
        let t = choose|t: int| is_nearest_enemy(me, seen, t);
        assert(manhattan(me, seen[t]) <= manhattan(me, seen[j]));
    }
}

/// A fresh agent at `(x, y)` with the stats of `profile`: at full health,
/// alive, with no damage dealt.
pub open spec fn fresh_agent(
    id: usize,
    team: Team,
    x: i32,
    y: i32,
    profile: AgentProfile,
) -> Agent {
    Agent {
        id,
        team,
        x,
        y,
        hp: profile.hp,
        str_: profile.str_,
        spd: profile.spd,
        def: profile.def,
        base_damage: profile.base_damage,
        crit_chance: profile.crit_chance,
        alive: true,
        damage_dealt: 0,
    }
}

/// The agent after a blow of `amount`: its health drops by `amount`, and it
/// is dead once its health is not positive. A dead agent stays dead.
pub open spec fn wounded(a: Agent, amount: int) -> Agent {
    Agent { hp: (a.hp - amount) as i32, alive: a.alive && a.hp - amount > 0, ..a }
}

/// The agent after dealing `amount` of damage.
pub open spec fn credited(a: Agent, amount: int) -> Agent {
    Agent { damage_dealt: (a.damage_dealt + amount) as u32, ..a }
}

/// An agent that a battle can be fought with: alive exactly while its health
/// is positive, with stats in range.
pub open spec fn fit_to_fight(a: Agent) -> bool {
    a.consistent() && a.stats_bounded()
}

/// The damage of a blow by `me` that lands and is not critical, after
/// `rounds_engaged` rounds in which damage was dealt, with `allies` living
/// allies near. The attacker's own stats, as fatigue leaves them, enter the
/// formula of its team.
pub open spec fn plain_damage(me: Agent, allies: int, rounds_engaged: int) -> int {
    let tired = fatigue(rounds_engaged, me.team, me.spd as int);
    blow_damage(
        me.team,
        me.base_damage as int,
        effective_strength(me.str_ as int, tired),
        effective_defense(me.def as int, tired),
        allies,
    )
}

/// Whether a blow of `me` at `foe` lands, for a random part `jitter` of the
/// hit chance and a draw `roll` from 1 to 100: it lands when the draw does
/// not exceed the hit chance. The speed of the attacker counts as fatigue
/// leaves it, that of the target as it stands.
pub open spec fn blow_lands(
    me: Agent,
    foe: Agent,
    allies: int,
    rounds_engaged: int,
    jitter: int,
    roll: int,
) -> bool {
    roll <= hit_chance(
        me.team,
        effective_speed(me.spd as int, fatigue(rounds_engaged, me.team, me.spd as int)),
        foe.spd as int,
        allies,
        jitter,
    )
}

/// Whether a blow of `me` that lands is critical, for a random part `jitter`
/// of the critical threshold and a draw `roll` from 1 to 100: it is when the
/// draw does not exceed the threshold.
pub open spec fn blow_is_critical(me: Agent, allies: int, jitter: int, roll: int) -> bool {
    roll <= crit_threshold(me.team, me.crit_chance as int, allies, jitter)
}

/// Whether `outcome`, a pair of "critical" and damage, and the change of the
/// two agents are a possible attack of `me` on `foe`.
///
/// A blow that misses deals no damage and changes nothing. A blow that
/// lands deals `plain_damage`, doubled if it is critical: the target is
/// wounded by it and the attacker is credited with it.
pub open spec fn attack_result(
    me: Agent,
    foe: Agent,
    me_after: Agent,
    foe_after: Agent,
    allies: int,
    rounds_engaged: int,
    outcome: (bool, i32),
) -> bool {
    if outcome.1 == 0 {
        !outcome.0 && me_after == me && foe_after == foe
    } else {
        &&& outcome.1 == plain_damage(me, allies, rounds_engaged) * (if outcome.0 {
            2int
        } else {
            1int
        })
        &&& foe_after == wounded(foe, outcome.1 as int)
        &&& me_after == credited(me, outcome.1 as int)
    }
}

/// A blow by an agent whose stats are in range is within `MAX_HIT` even when
/// doubled.
pub proof fn lemma_plain_damage_bounds(me: Agent, allies: int, rounds_engaged: int)
    requires
        me.stats_bounded(),
        allies >= 0,
    ensures
        2 <= plain_damage(me, allies, rounds_engaged) <= MAX_HIT / 2,
{
    lemma_effective_stats_bounds(me, rounds_engaged);
    let tired = fatigue(rounds_engaged, me.team, me.spd as int);
    lemma_blow_damage_bounds(
        me.team,
        me.base_damage as int,
        effective_strength(me.str_ as int, tired),
        effective_defense(me.def as int, tired),
        allies,
    );
}

/// The direction of a unit step from `from` towards `to` on one axis.
pub open spec fn toward(from: int, to: int) -> int {
    if to > from {
        1
    } else if to < from {
        -1
    } else {
        0
    }
}

/// The cell reached by one step along the columns towards column `tx`, held
/// to the grid.
pub open spec fn step_in_x(a: Agent, tx: int) -> (i32, i32) {
    (
        clamped(a.x + toward(a.x as int, tx), 0, ARENA_WIDTH - 1) as i32,
        clamped(a.y as int, 0, ARENA_HEIGHT - 1) as i32,
    )
}

/// The cell reached by one step along the rows towards row `ty`, held to the
/// grid.
pub open spec fn step_in_y(a: Agent, ty: int) -> (i32, i32) {
    (
        clamped(a.x as int, 0, ARENA_WIDTH - 1) as i32,
        clamped(a.y + toward(a.y as int, ty), 0, ARENA_HEIGHT - 1) as i32,
    )
}

/// The agent after it tried to step towards `(tx, ty)`: it takes the step
/// along the columns if that cell is free, else the step along the rows if
/// that cell is free, else it stays.
pub open spec fn moved(a: Agent, tx: int, ty: int, occupied: Seq<(i32, i32)>) -> Agent {
    let first = step_in_x(a, tx);
    let second = step_in_y(a, ty);
    if !occupied.contains(first) {
        Agent { x: first.0, y: first.1, ..a }
    } else if !occupied.contains(second) {
        Agent { x: second.0, y: second.1, ..a }
    } else {
        a
    }
}

impl Agent {
    /// The agent is alive exactly while its health is positive.
    pub open spec fn consistent(&self) -> bool {
        self.alive <==> self.hp > 0
    }

    /// The combat stats are in the range that battles are proved for.
    pub open spec fn stats_bounded(&self) -> bool {
        &&& stat_in_range(self.str_ as int)
        &&& stat_in_range(self.spd as int)
        &&& stat_in_range(self.def as int)
        &&& stat_in_range(self.base_damage as int)
        &&& stat_in_range(self.crit_chance as int)
    }

    /// The agent stands on a cell of the grid.
    pub open spec fn in_arena(&self) -> bool {
        within_bounds(self.x as int, self.y as int)
    }

    /// Makes a fresh agent at `(x, y)` with the stats of `profile`: at full
    /// health, alive, with no damage dealt.
    pub fn new_from_profile(
        id: usize,
        team: Team,
        x: i32,
        y: i32,
        profile: &AgentProfile,
    ) -> (agent: Agent)
        ensures
            agent == fresh_agent(id, team, x, y, *profile),
            profile.usable() ==> agent.consistent() && agent.stats_bounded(),
    {
        Agent {
            id,
            team,
            x,
            y,
            hp: profile.hp,
            str_: profile.str_,
            spd: profile.spd,
            def: profile.def,
            base_damage: profile.base_damage,
            crit_chance: profile.crit_chance,
            alive: true,
            damage_dealt: 0,
        }
    }

    /// Picks the target among `agents`: the nearest living enemy, the first
    /// of them where several are equally near. There is a target exactly
    /// when some enemy lives.
    pub fn select_target(&self, agents: &[Agent]) -> (target: Option<usize>)
        ensures
            match target {
                Some(t) => is_nearest_enemy(*self, agents@, t as int),
                None => forall|j: int|
                    0 <= j < agents@.len() ==> !is_living_enemy(*self, #[trigger] agents@[j]),
            },
            as_index(target) == nearest_enemy(*self, agents@),
    {
        let mut best: Option<usize> = None;
        let mut best_distance: i64 = 0;
        let mut i: usize = 0;
        while i < agents.len()
            invariant
                i <= agents@.len(),
                match best {
                    Some(t) => {
                        &&& is_nearest_enemy(*self, agents@.take(i as int), t as int)
                        &&& best_distance == manhattan(*self, agents@[t as int])
                    },
                    None => forall|j: int|
                        0 <= j < i ==> !is_living_enemy(*self, #[trigger] agents@[j]),
                },
            decreases agents@.len() - i,
        {
            let other = &agents[i];
            proof {
                assert(agents@.take(i as int + 1) =~= agents@.take(i as int).push(*other));
            }
            if other.alive && other.team != self.team {
                let d = self.span_to(other);
                let closer = match best {
                    Some(_) => d < best_distance,
                    None => true,
                };
                if closer {
                    proof {
                        lemma_nearer_enemy_found(*self, agents@.take(i as int), *other);
                    }
                    best = Some(i);
                    best_distance = d;
                } else {
                    proof {
                        lemma_nearest_enemy_kept(
                            *self,
                            agents@.take(i as int),
                            *other,
                            best->0 as int,
                        );
                    }
                }
            } else {
                proof {
                    if best is Some {
                        lemma_nearest_enemy_kept(
                            *self,
                            agents@.take(i as int),
                            *other,
                            best->0 as int,
                        );
                    }
                }
            }
            i += 1;
        }
        proof {
            assert(agents@.take(agents@.len() as int) =~= agents@);
            match best {
                Some(t) => lemma_nearest_enemy_is(*self, agents@, t as int),
                None => lemma_no_enemy_no_target(*self, agents@),
            }
        }
        best
    }

    /// Decides whether a blow at `target` lands, after `rounds_engaged`
    /// rounds in which damage was dealt and with `allies` living allies near,
    /// for a random part `jitter` of the hit chance and a draw `roll` from 1
    /// to 100.
    pub fn blow_hits(
        &self,
        target: &Agent,
        allies: i32,
        rounds_engaged: u32,
        jitter: i32,
        roll: i32,
    ) -> (hit: bool)
        requires
            self.stats_bounded(),
        ensures
            hit == blow_lands(
                *self,
                *target,
                allies as int,
                rounds_engaged as int,
                jitter as int,
                roll as int,
            ),
    {
        let stats = effective_stats(self, rounds_engaged);
        attack_lands(self.team, stats.speed, target.spd, allies, jitter, roll)
    }

    /// Deals a blow that lands to `target`, after `rounds_engaged` rounds in
    /// which damage was dealt and with `allies` living allies near, for a
    /// random part `jitter` of the critical threshold and a draw `roll` from
    /// 1 to 100. Returns whether the blow was critical, and its damage.
    pub fn deal_blow(
        &mut self,
        target: &mut Agent,
        allies: i32,
        rounds_engaged: u32,
        jitter: i32,
        roll: i32,
    ) -> (outcome: (bool, i32))
        requires
            old(self).stats_bounded(),
            allies >= 0,
            old(target).hp - MAX_HIT >= i32::MIN,
            old(self).damage_dealt + MAX_HIT <= u32::MAX,
        ensures
            outcome.0 == blow_is_critical(*old(self), allies as int, jitter as int, roll as int),
            outcome.1 == plain_damage(*old(self), allies as int, rounds_engaged as int) * (
            if outcome.0 {
                2int
            } else {
                1int
            }),
            2 <= outcome.1 <= MAX_HIT,
            *final(target) == wounded(*old(target), outcome.1 as int),
            *final(self) == credited(*old(self), outcome.1 as int),
    {
        proof {
            lemma_plain_damage_bounds(*self, allies as int, rounds_engaged as int);
        }
        let stats = effective_stats(self, rounds_engaged);
        let plain = attack_damage(
            self.team,
            self.base_damage,
            stats.strength,
            stats.defense,
            allies,
        );
        let critical = attack_is_critical(self.team, self.crit_chance, allies, jitter, roll);
        let damage = if critical {
            plain * 2
        } else {
            plain
        };
        target.take_damage(damage);
        self.damage_dealt = self.damage_dealt + damage as u32;
        (critical, damage)
    }

    /// Attacks `target`, after `rounds_engaged` rounds in which damage was
    /// dealt and with `allies` living allies near. Returns whether the blow
    /// was critical, and the damage it did: zero for a miss.
    ///
    /// Four numbers are drawn at most: the random part of the hit chance and
    /// a number from 1 to 100, by which `blow_hits` decides whether the blow
    /// lands, and for a blow that lands a number from 1 to 100 and the
    /// random part of the critical threshold, by which `deal_blow` decides
    /// whether it is critical. Whatever is drawn, the attack is one that
    /// `attack_result` allows.
    pub fn attack(
        &mut self,
        target: &mut Agent,
        allies: i32,
        rounds_engaged: u32,
        rng: &mut StdRng,
    ) -> (outcome: (bool, i32))
        requires
            old(self).stats_bounded(),
            allies >= 0,
            old(target).hp - MAX_HIT >= i32::MIN,
            old(self).damage_dealt + MAX_HIT <= u32::MAX,
        ensures
            attack_result(
                *old(self),
                *old(target),
                *final(self),
                *final(target),
                allies as int,
                rounds_engaged as int,
                outcome,
            ),
            0 <= outcome.1 <= MAX_HIT,
            final(self).stats_bounded(),
            old(self).consistent() ==> final(self).consistent(),
            old(target).consistent() ==> final(target).consistent(),
    {
        let (hit_span, crit_span) = jitter_spans(self.team);
        let hit_jitter = roll(rng, -hit_span, hit_span);
        let hit_roll = roll(rng, 1, 100);
        if !self.blow_hits(target, allies, rounds_engaged, hit_jitter, hit_roll) {
            return (false, 0);
        }
        let crit_roll = roll(rng, 1, 100);
        let crit_jitter = roll(rng, -crit_span, crit_span);
        self.deal_blow(target, allies, rounds_engaged, crit_jitter, crit_roll)
    }

    /// Whether the agent still fights.
    pub fn is_alive(&self) -> (alive: bool)
        ensures
            alive == self.alive,
    {
        self.alive
    }

    /// Takes a blow of `amount`: health drops by it, and the agent dies when
    /// its health is used up. A dead agent may be struck again; it stays dead.
    pub fn take_damage(&mut self, amount: i32)
        requires
            amount >= 0,
            old(self).hp - amount >= i32::MIN,
        ensures
            *final(self) == wounded(*old(self), amount as int),
            old(self).consistent() ==> final(self).consistent(),
    {
        self.hp = self.hp - amount;
        if self.hp <= 0 {
            self.alive = false;
        }
    }

    /// Manhattan distance to `other`, as a wide integer: defined for any two
    /// cells.
    pub(crate) fn span_to(&self, other: &Agent) -> (d: i64)
        ensures
            d == manhattan(*self, *other),
    {
        let dx: i64 = self.x as i64 - other.x as i64;
        let dy: i64 = self.y as i64 - other.y as i64;
        let ax: i64 = if dx < 0 {
            -dx
        } else {
            dx
        };
        let ay: i64 = if dy < 0 {
            -dy
        } else {
            dy
        };
        ax + ay
    }

    /// Manhattan distance to `other`: the sum of the distances along the
    /// columns and along the rows.
    pub fn distance_to(&self, other: &Agent) -> (d: i32)
        requires
            manhattan(*self, *other) <= i32::MAX,
        ensures
            d == manhattan(*self, *other),
    {
        self.span_to(other) as i32
    }

    /// Steps one cell towards `(tx, ty)`, past the cells in `occupied`: along
    /// the columns if that cell is free, else along the rows if that cell is
    /// free, else not at all. The step never leaves the grid, and an agent on
    /// the grid changes at most one coordinate, by at most one.
    pub fn move_towards_coords(&mut self, tx: i32, ty: i32, occupied: &[(i32, i32)])
        ensures
            *final(self) == moved(*old(self), tx as int, ty as int, occupied@),
            final(self).in_arena() || (final(self).x == old(self).x && final(self).y == old(
                self,
            ).y),
            old(self).in_arena() ==> final(self).in_arena() && abs(final(self).x - old(self).x)
                + abs(final(self).y - old(self).y) <= 1,
    {
        let first = (
            hold_to(self.x as i64 + heading(self.x, tx), ARENA_WIDTH),
            hold_to(self.y as i64, ARENA_HEIGHT),
        );
        let second = (
            hold_to(self.x as i64, ARENA_WIDTH),
            hold_to(self.y as i64 + heading(self.y, ty), ARENA_HEIGHT),
        );
        if !holds_cell(occupied, first) {
            self.x = first.0;
            self.y = first.1;
        } else if !holds_cell(occupied, second) {
            self.x = second.0;
            self.y = second.1;
        }
    }
}

/// The direction of a unit step from `from` towards `to`.
fn heading(from: i32, to: i32) -> (step: i64)
    ensures
        step == toward(from as int, to as int),
{
    if to > from {
        1
    } else if to < from {
        -1
    } else {
        0
    }
}

/// Whether `cell` is among `cells`.
pub fn holds_cell(cells: &[(i32, i32)], cell: (i32, i32)) -> (found: bool)
    ensures
        found == cells@.contains(cell),
{
    let mut k: usize = 0;
    while k < cells.len()
        invariant
            k <= cells@.len(),
            forall|j: int| 0 <= j < k ==> cells@[j] != cell,
        decreases cells@.len() - k,
    {
        if cells[k].0 == cell.0 && cells[k].1 == cell.1 {
            return true;
        }
        k += 1;
    }
    false
}

} // verus!
