//! The arithmetic of a fight: fatigue, the stats it leaves an agent with, and
//! the chances and the damage of a blow.
//!
//! The two teams fight by different formulas. A member of the group is helped
//! by the living allies near it; the solitary fighter hits harder alone.

use crate::arena::clamped;
use crate::character_profiles::{stat_in_range, STAT_LIMIT};
use crate::models::{Agent, Team};
use vstd::arithmetic::mul::lemma_mul_upper_bound;
use vstd::math::{max, min};
use vstd::prelude::*;

verus! {

/// The most damage one blow can do between agents whose stats are in range.
pub const MAX_HIT: i32 = 100_000;

/// Division that rounds towards zero, as the machine divides, by a positive
/// divisor.
pub open spec fn trunc_div(a: int, b: int) -> int
    recommends
        b > 0,
{
    if a >= 0 {
        a / b
    } else {
        -((-a) / b)
    }
}

/// The fifth power of `k`.
pub open spec fn fifth(k: int) -> int {
    k * k * k * k * k
}

/// The sixth power of `k`.
pub open spec fn sixth(k: int) -> int {
    k * k * k * k * k * k
}

/// Whether `k` is the fifth root of `m`, rounded down.
pub open spec fn is_floor_root5(m: int, k: int) -> bool {
    0 <= k && fifth(k) <= m < fifth(k + 1)
}

/// The fifth root of `m`, rounded down.
pub open spec fn floor_root5(m: int) -> int {
    choose|k: int| is_floor_root5(m, k)
}

/// Fatigue grows faster for the solitary fighter.
pub open spec fn fatigue_base(team: Team) -> int {
    match team {
        Team::Solo => 3,
        Team::Group => 1,
    }
}

/// Fatigue never takes more than a fraction of an agent's speed: a half for
/// the solitary fighter, a third for a member of the group.
pub open spec fn fatigue_cap(team: Team, spd: int) -> int {
    match team {
        Team::Solo => trunc_div(spd, 2),
        Team::Group => trunc_div(spd, 3),
    }
}

/// `base * rounds ^ 1.2`, rounded down: the fifth root of
/// `base ^ 5 * rounds ^ 6`.
pub open spec fn raw_fatigue(rounds: int, base: int) -> int {
    floor_root5(fifth(base) * sixth(rounds))
}

/// The fatigue of an agent of `team` with speed `spd`, after `rounds_engaged`
/// rounds in which damage was dealt: none before the first such round, then
/// `base * rounds_engaged ^ 1.2` up to the cap.
pub open spec fn fatigue(rounds_engaged: int, team: Team, spd: int) -> int {
    if rounds_engaged <= 0 {
        0
    } else {
        min(raw_fatigue(rounds_engaged, fatigue_base(team)), fatigue_cap(team, spd))
    }
}

/// Speed left by fatigue: one point lost per point of fatigue, never under 1.
pub open spec fn effective_speed(spd: int, fatigue: int) -> int {
    max(spd - fatigue, 1)
}

/// Strength left by fatigue: two points lost per point of fatigue, never
/// under 1.
pub open spec fn effective_strength(str_: int, fatigue: int) -> int {
    max(str_ - 2 * fatigue, 1)
}

/// Defense left by fatigue: three points lost per point of fatigue, never
/// under 1.
pub open spec fn effective_defense(def: int, fatigue: int) -> int {
    max(def - 3 * fatigue, 1)
}

/// How far the random part of a hit chance reaches, up and down.
pub open spec fn hit_jitter_span(team: Team) -> int {
    match team {
        Team::Group => 10,
        Team::Solo => 15,
    }
}

/// How far the random part of a critical threshold reaches, up and down.
pub open spec fn crit_jitter_span(team: Team) -> int {
    match team {
        Team::Group => 5,
        Team::Solo => 10,
    }
}

/// The chance, in percent, that a blow lands.
pub open spec fn hit_chance(
    team: Team,
    speed: int,
    target_speed: int,
    allies: int,
    jitter: int,
) -> int {
    match team {
        Team::Group => clamped(60 + 5 * (speed - target_speed) + 3 * allies + jitter, 20, 90),
        Team::Solo => clamped(65 + 8 * (speed - target_speed) + jitter, 25, 95),
    }
}

/// The damage of a blow that lands and is not critical.
pub open spec fn blow_damage(
    team: Team,
    base_damage: int,
    strength: int,
    defense: int,
    allies: int,
) -> int {
    match team {
        Team::Group => max(base_damage + strength - trunc_div(defense, 2 + allies), 2),
        Team::Solo => max(base_damage + 2 * strength - trunc_div(defense, 2), 5),
    }
}

/// The chance, in percent, that a blow that lands is critical.
pub open spec fn crit_threshold(team: Team, crit_chance: int, allies: int, jitter: int) -> int {
    match team {
        Team::Group => clamped(crit_chance + 2 * allies + jitter, 1, 95),
        Team::Solo => clamped(crit_chance + jitter, 1, 95),
    }
}

/// Fifth powers of naturals grow with their base.
pub proof fn lemma_fifth_grows(a: int, b: int)
    requires
        0 <= a <= b,
    ensures
        0 <= fifth(a) <= fifth(b),
{
    lemma_mul_upper_bound(a, b, a, b);
    lemma_mul_upper_bound(a * a, b * b, a, b);
    lemma_mul_upper_bound(a * a * a, b * b * b, a, b);
    lemma_mul_upper_bound(a * a * a * a, b * b * b * b, a, b);
}

/// Fifth powers of naturals grow strictly with their base.
pub proof fn lemma_fifth_grows_strictly(a: int, b: int)
    requires
        0 <= a < b,
    ensures
        fifth(a) < fifth(b),
{
    lemma_fifth_grows(a + 1, b);
    let a1 = a + 1;
    assert(a * a < a1 * a1) by (nonlinear_arith)
        requires
            0 <= a,
            a1 == a + 1,
    ;
    assert(a * a * a < a1 * a1 * a1) by (nonlinear_arith)
        requires
            0 <= a,
            a1 == a + 1,
            a * a < a1 * a1,
    ;
    assert(a * a * a * a < a1 * a1 * a1 * a1) by (nonlinear_arith)
        requires
            0 <= a,
            a1 == a + 1,
            a * a * a < a1 * a1 * a1,
    ;
    assert(a * a * a * a * a < a1 * a1 * a1 * a1 * a1) by (nonlinear_arith)
        requires
            0 <= a,
            a1 == a + 1,
            a * a * a * a < a1 * a1 * a1 * a1,
    ;
}

/// Every natural has a fifth root rounded down.
pub proof fn lemma_floor_root5_exists(m: int)
    requires
        m >= 0,
    ensures
        is_floor_root5(m, floor_root5(m)),
    decreases m,
{
    if m == 0 {
        assert(is_floor_root5(0, 0));
    } else {
        lemma_floor_root5_exists(m - 1);
        let k = floor_root5(m - 1);
        if fifth(k + 1) <= m {
            lemma_fifth_grows_strictly(k + 1, k + 2);
            assert(is_floor_root5(m, k + 1));
        } else {
            assert(is_floor_root5(m, k));
        }
    }
}

/// A natural has one fifth root rounded down.
pub proof fn lemma_floor_root5_is(m: int, k: int)
    requires
        is_floor_root5(m, k),
    ensures
        floor_root5(m) == k,
{
    let u = floor_root5(m);
    if u < k {
        lemma_fifth_grows(u + 1, k);
    } else if k < u {
        lemma_fifth_grows(k + 1, u);
    }
}

/// A natural whose fifth power does not exceed `m` does not exceed the fifth
/// root of `m`.
pub proof fn lemma_floor_root5_at_least(m: int, k: int)
    requires
        0 <= k,
        fifth(k) <= m,
    ensures
        k <= floor_root5(m),
{
    lemma_fifth_grows(0, k);
    lemma_floor_root5_exists(m);
    let u = floor_root5(m);
    if u < k {
        lemma_fifth_grows(u + 1, k);
    }
}

/// Raw fatigue is at least the number of rounds.
pub proof fn lemma_raw_fatigue_at_least_rounds(rounds: int, team: Team)
    requires
        rounds >= 0,
    ensures
        raw_fatigue(rounds, fatigue_base(team)) >= rounds,
{
    let b5 = fifth(fatigue_base(team));
    assert(b5 == 1 || b5 == 243);
    let f = fifth(rounds);
    lemma_fifth_grows(0, rounds);
    assert(sixth(rounds) == f * rounds);
    assert(f <= b5 * (f * rounds)) by (nonlinear_arith)
        requires
            f >= 0,
            b5 >= 1,
            rounds >= 0,
            rounds == 0 ==> f == 0,
    ;
    lemma_floor_root5_at_least(b5 * sixth(rounds), rounds);
}

/// Fatigue stays within half the stat range, whatever the round.
pub proof fn lemma_fatigue_bounds(rounds_engaged: int, team: Team, spd: int)
    requires
        stat_in_range(spd),
    ensures
        -STAT_LIMIT / 2 <= fatigue(rounds_engaged, team, spd) <= STAT_LIMIT / 2,
        spd >= 0 ==> fatigue(rounds_engaged, team, spd) >= 0,
{
    if rounds_engaged > 0 {
        lemma_raw_fatigue_at_least_rounds(rounds_engaged, team);
    }
}

/// A blow between agents whose stats are in range does at least 2 and at most
/// half of `MAX_HIT`, so that doubled it is still a blow within `MAX_HIT`.
pub proof fn lemma_blow_damage_bounds(
    team: Team,
    base_damage: int,
    strength: int,
    defense: int,
    allies: int,
)
    requires
        stat_in_range(base_damage),
        1 <= strength <= 2 * STAT_LIMIT,
        1 <= defense,
        0 <= allies,
    ensures
        2 <= blow_damage(team, base_damage, strength, defense, allies) <= MAX_HIT / 2,
{
    assert(defense / (2 + allies) >= 0) by (nonlinear_arith)
        requires
            defense >= 1,
            allies >= 0,
    ;
}

/// What fatigue leaves of the stats of an agent whose stats are in range.
pub proof fn lemma_effective_stats_bounds(a: Agent, rounds_engaged: int)
    requires
        a.stats_bounded(),
    ensures
        1 <= effective_speed(a.spd as int, fatigue(rounds_engaged, a.team, a.spd as int)) <= 2
            * STAT_LIMIT,
        1 <= effective_strength(a.str_ as int, fatigue(rounds_engaged, a.team, a.spd as int))
            <= 2 * STAT_LIMIT,
        1 <= effective_defense(a.def as int, fatigue(rounds_engaged, a.team, a.spd as int)) <= 3
            * STAT_LIMIT,
{
    lemma_fatigue_bounds(rounds_engaged, a.team, a.spd as int);
}

/// The fifth power of a small natural.
fn fifth_power(k: u128) -> (p: u128)
    requires
        k <= STAT_LIMIT,
    ensures
        p == fifth(k as int),
        p <= 100_000_000_000_000_000_000,
{
    proof {
        let b = STAT_LIMIT as int;
        lemma_mul_upper_bound(k as int, b, k as int, b);
        lemma_mul_upper_bound(k * k, b * b, k as int, b);
        lemma_mul_upper_bound(k * k * k, b * b * b, k as int, b);
        lemma_mul_upper_bound(k * k * k * k, b * b * b * b, k as int, b);
    }
    k * k * k * k * k
}

/// The fatigue of an agent of `team` with speed `spd`, after `rounds_engaged`
/// rounds in which damage was dealt.
///
/// The power is taken exactly, in integers: the cap is returned where the
/// rounds alone already reach it, and else the fifth root of
/// `base ^ 5 * rounds ^ 6` is found between the rounds and the cap by
/// bisection.
pub fn fatigue_penalty(rounds_engaged: u32, team: Team, spd: i32) -> (penalty: i32)
    requires
        stat_in_range(spd as int),
    ensures
        penalty == fatigue(rounds_engaged as int, team, spd as int),
{
    if rounds_engaged == 0 {
        return 0;
    }
    let cap: i32 = match team {
        Team::Solo => spd / 2,
        Team::Group => spd / 3,
    };
    proof {
        lemma_raw_fatigue_at_least_rounds(rounds_engaged as int, team);
    }
    if cap <= 0 || rounds_engaged as i64 >= cap as i64 {
        return cap;
    }
    let rounds: u128 = rounds_engaged as u128;
    let base5: u128 = match team {
        Team::Solo => 243,
        Team::Group => 1,
    };
    assert(base5 == fifth(fatigue_base(team)));
    let rounds5 = fifth_power(rounds);
    assert(rounds5 * rounds == sixth(rounds as int));
    assert(rounds5 * rounds <= 100_000_000_000_000_000_000 * 10_000) by (nonlinear_arith)
        requires
            rounds5 <= 100_000_000_000_000_000_000,
            rounds <= 10_000,
    ;
    let rounds6: u128 = rounds5 * rounds;
    assert(base5 * rounds6 <= 243 * 1_000_000_000_000_000_000_000_000) by (nonlinear_arith)
        requires
            base5 <= 243,
            rounds6 <= 1_000_000_000_000_000_000_000_000,
    ;
    let bound: u128 = base5 * rounds6;
    let top: u128 = cap as u128;
    let mut low: u128 = rounds;
    let mut high: u128 = top + 1;
    proof {
        assert(bound == fifth(fatigue_base(team)) * sixth(rounds as int));
        lemma_floor_root5_exists(bound as int);
        lemma_fifth_grows(rounds as int, floor_root5(bound as int));
    }
    while high - low > 1
        invariant
            rounds <= low < high <= top + 1,
            top <= STAT_LIMIT,
            fifth(low as int) <= bound,
            high <= top ==> fifth(high as int) > bound,
        decreases high - low,
    {
        let middle: u128 = low + (high - low) / 2;
        if fifth_power(middle) <= bound {
            low = middle;
        } else {
            high = middle;
        }
    }
    proof {
        if low == top {
            lemma_floor_root5_at_least(bound as int, top as int);
        } else {
            lemma_floor_root5_is(bound as int, low as int);
        }
    }
    low as i32
}

/// The stats of an agent as fatigue leaves them.
#[derive(Debug, Clone, Copy, PartialEq, Eq, Structural)]
pub struct EffectiveStats {
    pub speed: i32,
    pub strength: i32,
    pub defense: i32,
}

/// The stats that fatigue leaves `agent` after `rounds_engaged` rounds in
/// which damage was dealt. None of them is under 1.
pub fn effective_stats(agent: &Agent, rounds_engaged: u32) -> (stats: EffectiveStats)
    requires
        agent.stats_bounded(),
    ensures
        stats.speed == effective_speed(
            agent.spd as int,
            fatigue(rounds_engaged as int, agent.team, agent.spd as int),
        ),
        stats.strength == effective_strength(
            agent.str_ as int,
            fatigue(rounds_engaged as int, agent.team, agent.spd as int),
        ),
        stats.defense == effective_defense(
            agent.def as int,
            fatigue(rounds_engaged as int, agent.team, agent.spd as int),
        ),
        stats.speed >= 1,
        stats.strength >= 1,
        stats.defense >= 1,
{
    let penalty = fatigue_penalty(rounds_engaged, agent.team, agent.spd);
    proof {
        lemma_fatigue_bounds(rounds_engaged as int, agent.team, agent.spd as int);
    }
    let speed = agent.spd - penalty;
    let strength = agent.str_ - penalty * 2;
    let defense = agent.def - penalty * 3;
    EffectiveStats {
        speed: if speed < 1 {
            1
        } else {
            speed
        },
        strength: if strength < 1 {
            1
        } else {
            strength
        },
        defense: if defense < 1 {
            1
        } else {
            defense
        },
    }
}

/// How far the random parts of the hit chance and of the critical threshold
/// of `team` reach, up and down.
pub fn jitter_spans(team: Team) -> (spans: (i32, i32))
    ensures
        spans.0 == hit_jitter_span(team),
        spans.1 == crit_jitter_span(team),
{
    match team {
        Team::Group => (10, 5),
        Team::Solo => (15, 10),
    }
}

/// Holds a wide value to the range `low..=high`.
fn clamp_wide(value: i64, low: i32, high: i32) -> (held: i32)
    requires
        low <= high,
    ensures
        held == clamped(value as int, low as int, high as int),
{
    if value < low as i64 {
        low
    } else if value > high as i64 {
        high
    } else {
        value as i32
    }
}

/// Decides whether a blow lands: it does when `roll`, a draw from 1 to 100,
/// does not exceed the hit chance.
pub fn attack_lands(
    team: Team,
    speed: i32,
    target_speed: i32,
    allies: i32,
    jitter: i32,
    roll: i32,
) -> (hit: bool)
    ensures
        hit == (roll <= hit_chance(
            team,
            speed as int,
            target_speed as int,
            allies as int,
            jitter as int,
        )),
{
    let lead: i64 = speed as i64 - target_speed as i64;
    let chance = match team {
        Team::Group => clamp_wide(60 + 5 * lead + 3 * (allies as i64) + jitter as i64, 20, 90),
        Team::Solo => clamp_wide(65 + 8 * lead + jitter as i64, 25, 95),
    };
    roll <= chance
}

/// The damage of a blow that lands and is not critical.
pub fn attack_damage(
    team: Team,
    base_damage: i32,
    strength: i32,
    defense: i32,
    allies: i32,
) -> (damage: i32)
    requires
        allies >= 0,
        blow_damage(team, base_damage as int, strength as int, defense as int, allies as int)
            <= i32::MAX,
    ensures
        damage == blow_damage(
            team,
            base_damage as int,
            strength as int,
            defense as int,
            allies as int,
        ),
{
    let wide: i64 = match team {
        Team::Group => {
            let raw = base_damage as i64 + strength as i64 - (defense as i64) / (2 + allies as i64);
            if raw < 2 {
                2
            } else {
                raw
            }
        },
        Team::Solo => {
            let raw = base_damage as i64 + 2 * (strength as i64) - (defense as i64) / 2;
            if raw < 5 {
                5
            } else {
                raw
            }
        },
    };
    wide as i32
}

/// Decides whether a blow that lands is critical: it is when `roll`, a draw
/// from 1 to 100, does not exceed the critical threshold.
pub fn attack_is_critical(
    team: Team,
    crit_chance: i32,
    allies: i32,
    jitter: i32,
    roll: i32,
) -> (critical: bool)
    ensures
        critical == (roll <= crit_threshold(
            team,
            crit_chance as int,
            allies as int,
            jitter as int,
        )),
{
    let threshold = match team {
        Team::Group => clamp_wide(crit_chance as i64 + 2 * (allies as i64) + jitter as i64, 1, 95),
        Team::Solo => clamp_wide(crit_chance as i64 + jitter as i64, 1, 95),
    };
    roll <= threshold
}

} // verus!
