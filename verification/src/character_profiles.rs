//! Stat templates from which agents are made, and their lookup by name.

use vstd::hash_map::StringHashMap;
use vstd::prelude::*;

verus! {

/// Largest magnitude a combat stat of a usable profile may have. Within this
/// range every formula of a battle stays inside the machine integers, for as
/// many rounds and agents as a battle can have.
pub const STAT_LIMIT: i32 = 10_000;

/// An immutable stat template, shared by all agents of one kind.
#[derive(Debug, Clone)]
pub struct AgentProfile {
    pub hp: i32,
    pub str_: i32,
    pub spd: i32,
    pub def: i32,
    pub base_damage: i32,
    pub crit_chance: i32,
    pub endurance: i32,
    pub dexterity: i32,
    pub int_abstract: i32,
    pub int_environmental: i32,
    pub pain_tolerance: i32,
    pub behavior_flags: Vec<String>,
}

/// Whether a combat stat lies in the range that battles are proved for.
pub open spec fn stat_in_range(value: int) -> bool {
    -STAT_LIMIT <= value <= STAT_LIMIT
}

impl AgentProfile {
    /// A profile from which a battle can start: an agent made from it is alive
    /// with positive health, and its combat stats are in range.
    pub open spec fn usable(&self) -> bool {
        &&& self.hp >= 1
        &&& stat_in_range(self.str_ as int)
        &&& stat_in_range(self.spd as int)
        &&& stat_in_range(self.def as int)
        &&& stat_in_range(self.base_damage as int)
        &&& stat_in_range(self.crit_chance as int)
    }

    /// Decides `usable`.
    pub fn is_usable(&self) -> (ok: bool)
        ensures
            ok == self.usable(),
    {
        self.hp >= 1 && in_range(self.str_) && in_range(self.spd) && in_range(self.def)
            && in_range(self.base_damage) && in_range(self.crit_chance)
    }
}

fn in_range(value: i32) -> (ok: bool)
    ensures
        ok == stat_in_range(value as int),
{
    -STAT_LIMIT <= value && value <= STAT_LIMIT
}

/// Why a profile could not be resolved.
#[derive(Debug, Clone, Copy, PartialEq, Eq, Structural)]
pub enum ProfileError {
    /// No profile of the requested name is loaded.
    NotFound,
}

/// The loaded profiles, each under its name.
pub struct ProfileSet {
    entries: StringHashMap<AgentProfile>,
}

impl View for ProfileSet {
    type V = Map<Seq<char>, AgentProfile>;

    closed spec fn view(&self) -> Map<Seq<char>, AgentProfile> {
        self.entries@
    }
}

impl ProfileSet {
    /// A set without profiles.
    pub fn new() -> (set: ProfileSet)
        ensures
            set@ == Map::<Seq<char>, AgentProfile>::empty(),
    {
        ProfileSet { entries: StringHashMap::new() }
    }

    /// Stores `profile` under `name`, in place of what was stored there.
    pub fn insert(&mut self, name: String, profile: AgentProfile)
        ensures
            final(self)@ == old(self)@.insert(name@, profile),
    {
        self.entries.insert(name, profile);
    }
}

/// Looks up the profile called `name`.
///
/// The lookup succeeds exactly when the name is loaded, and then hands out
/// the profile stored under it.
pub fn get_profile<'a>(
    profiles: &'a ProfileSet,
    name: &str,
) -> (found: Result<&'a AgentProfile, ProfileError>)
    ensures
        match found {
            Ok(profile) => profiles@.contains_key(name@) && *profile == profiles@[name@],
            Err(e) => !profiles@.contains_key(name@) && e == ProfileError::NotFound,
        },
{
    match profiles.entries.get(name) {
        Some(profile) => Ok(profile),
        None => Err(ProfileError::NotFound),
    }
}

} // verus!
