//! The data of a battle: teams, agents and the record of a finished battle.

use crate::causal::CausalMetrics;
use vstd::prelude::*;

verus! {

/// The two sides of a battle.
#[derive(Debug, Clone, Copy, PartialEq, Eq, Structural)]
pub enum Team {
    /// The coordinated side, whose members help each other.
    Group,
    /// The solitary side.
    Solo,
}

/// One combatant: its standing stats, its cell on the grid, whether it still
/// fights, and the damage it has dealt so far.
#[derive(Debug, Clone, Copy, PartialEq, Eq, Structural)]
pub struct Agent {
    pub id: usize,
    pub team: Team,
    pub hp: i32,
    pub str_: i32,
    pub spd: i32,
    pub def: i32,
    pub base_damage: i32,
    pub crit_chance: i32,
    pub x: i32,
    pub y: i32,
    pub alive: bool,
    pub damage_dealt: u32,
}

impl Default for Agent {
    fn default() -> (agent: Agent)
        ensures
            agent == (Agent {
                id: 0,
                team: Team::Group,
                hp: 0,
                str_: 0,
                spd: 0,
                def: 0,
                base_damage: 0,
                crit_chance: 0,
                x: 0,
                y: 0,
                alive: true,
                damage_dealt: 0,
            }),
    {
        Agent {
            id: 0,
            team: Team::Group,
            hp: 0,
            str_: 0,
            spd: 0,
            def: 0,
            base_damage: 0,
            crit_chance: 0,
            x: 0,
            y: 0,
            alive: true,
            damage_dealt: 0,
        }
    }
}

/// The record of a finished battle. `context` is whatever the caller wants
/// attached to the battle; it is stored and handed on, never looked into.
#[derive(Debug)]
pub struct BattleResult<C> {
    pub battle_id: usize,
    pub winner: Team,
    pub rounds: u32,
    pub group_casualties: u32,
    pub solo_survived: bool,
    pub context: C,
    pub causal: CausalMetrics,
}

} // verus!
