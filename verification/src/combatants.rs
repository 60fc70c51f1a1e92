//! The two kinds of combatant and the stats that define them.

use vstd::prelude::*;

verus! {

/// The stats that define one kind of combatant.
#[derive(Debug, Clone)]
pub struct CombatantStats {
    pub hp: i32,
    pub str_: i32,
    pub spd: i32,
    pub def: i32,
    pub base_damage: i32,
    pub crit_chance: i32,
    pub endurance: i32,
    pub dexterity: i32,
    pub int_abstract: i32,
    pub int_environmental: i32,
    pub pain_tolerance: i32,
    pub behavior_flags: Vec<String>,
}

/// The definitions of the two kinds of combatant, under the names "Man" and
/// "Gorilla".
#[derive(Debug)]
pub struct CombatantDefinitions {
    pub man: CombatantStats,
    pub gorilla: CombatantStats,
}

/// Decides whether two texts are the same.
pub fn same_text(a: &str, b: &str) -> (same: bool)
    ensures
        same == (a@ == b@),
{
    let left = a.to_owned();
    let right = b.to_owned();
    left == right
}

impl CombatantDefinitions {
    /// Looks up the stats of the kind called `combatant_type`: those of the
    /// man for "Man", those of the gorilla for "Gorilla", none for any other
    /// name.
    pub fn get_stats(&self, combatant_type: &str) -> (found: Option<&CombatantStats>)
        ensures
            combatant_type@ == "Man"@ ==> found == Some(&self.man),
            combatant_type@ == "Gorilla"@ ==> found == Some(&self.gorilla),
            combatant_type@ != "Man"@ && combatant_type@ != "Gorilla"@ ==> found is None,
    {
        proof {
            reveal_strlit("Man");
            reveal_strlit("Gorilla");
            assert("Man"@.len() == 3);
            assert("Gorilla"@.len() == 7);
        }
        if same_text(combatant_type, "Man") {
            Some(&self.man)
        } else if same_text(combatant_type, "Gorilla") {
            Some(&self.gorilla)
        } else {
            None
        }
    }
}

} // verus!
