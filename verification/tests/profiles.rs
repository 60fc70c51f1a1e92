use battle_sim::character_profiles::{
    get_profile, AgentProfile, ProfileError, ProfileSet, STAT_LIMIT,
};
use battle_sim::combatants::{same_text, CombatantDefinitions, CombatantStats};
use battle_sim::environment::get_weather_options;

fn profile(hp: i32, spd: i32) -> AgentProfile {
    AgentProfile {
        hp,
        str_: 10,
        spd,
        def: 5,
        base_damage: 8,
        crit_chance: 10,
        endurance: 1,
        dexterity: 2,
        int_abstract: 3,
        int_environmental: 4,
        pain_tolerance: 5,
        behavior_flags: vec!["tool_use".to_string()],
    }
}

fn stats(hp: i32) -> CombatantStats {
    CombatantStats {
        hp,
        str_: 1,
        spd: 2,
        def: 3,
        base_damage: 4,
        crit_chance: 5,
        endurance: 6,
        dexterity: 7,
        int_abstract: 8,
        int_environmental: 9,
        pain_tolerance: 10,
        behavior_flags: Vec::new(),
    }
}

#[test]
fn a_loaded_profile_is_found_by_its_name() {
    let mut set = ProfileSet::new();
    set.insert("man".to_string(), profile(50, 10));
    set.insert("gorilla".to_string(), profile(500, 12));
    let man = get_profile(&set, "man");
    assert_eq!(man.map(|p| (p.hp, p.spd)), Ok((50, 10)));
    let gorilla = get_profile(&set, "gorilla");
    assert_eq!(gorilla.map(|p| (p.hp, p.spd)), Ok((500, 12)));
}

#[test]
fn a_missing_profile_is_not_found() {
    let mut set = ProfileSet::new();
    assert_eq!(get_profile(&set, "man").map(|p| p.hp), Err(ProfileError::NotFound));
    set.insert("man".to_string(), profile(50, 10));
    assert_eq!(get_profile(&set, "Man").map(|p| p.hp), Err(ProfileError::NotFound));
    assert_eq!(get_profile(&set, "").map(|p| p.hp), Err(ProfileError::NotFound));
    assert_eq!(get_profile(&set, "man ").map(|p| p.hp), Err(ProfileError::NotFound));
}

#[test]
fn a_profile_stored_again_replaces_the_first() {
    let mut set = ProfileSet::new();
    set.insert("man".to_string(), profile(50, 10));
    set.insert("man".to_string(), profile(60, 11));
    assert_eq!(get_profile(&set, "man").map(|p| (p.hp, p.spd)), Ok((60, 11)));
}

#[test]
fn usable_profiles_have_health_and_stats_in_range() {
    assert!(profile(1, 0).is_usable());
    assert!(profile(i32::MAX, STAT_LIMIT).is_usable());
    assert!(profile(50, -STAT_LIMIT).is_usable());
    assert!(!profile(0, 10).is_usable());
    assert!(!profile(-3, 10).is_usable());
    assert!(!profile(50, STAT_LIMIT + 1).is_usable());
    assert!(!profile(50, -STAT_LIMIT - 1).is_usable());
    let mut strong = profile(50, 10);
    strong.str_ = STAT_LIMIT + 1;
    assert!(!strong.is_usable());
    let mut tough = profile(50, 10);
    tough.def = i32::MIN;
    assert!(!tough.is_usable());
    let mut heavy = profile(50, 10);
    heavy.base_damage = 10_001;
    assert!(!heavy.is_usable());
    let mut lucky = profile(50, 10);
    lucky.crit_chance = -10_001;
    assert!(!lucky.is_usable());
    let mut odd = profile(50, 10);
    odd.endurance = i32::MAX;
    odd.pain_tolerance = i32::MIN;
    assert!(odd.is_usable());
}

#[test]
fn texts_are_compared_letter_by_letter() {
    assert!(same_text("Man", "Man"));
    assert!(same_text("", ""));
    assert!(!same_text("Man", "man"));
    assert!(!same_text("Man", "Man "));
    assert!(!same_text("Man", ""));
}

#[test]
fn the_two_kinds_are_found_by_their_names() {
    let defs = CombatantDefinitions { man: stats(50), gorilla: stats(500) };
    assert_eq!(defs.get_stats("Man").map(|s| s.hp), Some(50));
    assert_eq!(defs.get_stats("Gorilla").map(|s| s.hp), Some(500));
}

#[test]
fn other_names_are_no_kind() {
    let defs = CombatantDefinitions { man: stats(50), gorilla: stats(500) };
    assert!(defs.get_stats("man").is_none());
    assert!(defs.get_stats("gorilla").is_none());
    assert!(defs.get_stats("").is_none());
    assert!(defs.get_stats("Gorilla ").is_none());
}

#[test]
fn each_climate_has_its_weather() {
    assert_eq!(get_weather_options("Tropical"), vec!["Humid", "Rain", "Clear", "Storm"]);
    assert_eq!(get_weather_options("Arid"), vec!["Clear", "Windy", "Dusty", "Hot"]);
    assert_eq!(get_weather_options("Temperate"), vec!["Clear", "Rain", "Cloudy", "Windy"]);
    assert_eq!(get_weather_options("Continental"), vec!["Snow", "Overcast", "Clear", "Rain"]);
    assert_eq!(get_weather_options("Polar"), vec!["Snow", "Blizzard", "Freezing Fog", "Clear"]);
}

#[test]
fn an_unknown_climate_has_clear_weather() {
    assert_eq!(get_weather_options("Lunar"), vec!["Clear"]);
    assert_eq!(get_weather_options(""), vec!["Clear"]);
    assert_eq!(get_weather_options("tropical"), vec!["Clear"]);
}
