use battle_sim::agents::holds_cell;
use battle_sim::character_profiles::AgentProfile;
use battle_sim::models::{Agent, Team};
use rand::rngs::StdRng;
use rand::SeedableRng;

fn profile(
    hp: i32,
    str_: i32,
    spd: i32,
    def: i32,
    base_damage: i32,
    crit_chance: i32,
) -> AgentProfile {
    AgentProfile {
        hp,
        str_,
        spd,
        def,
        base_damage,
        crit_chance,
        endurance: 7,
        dexterity: 6,
        int_abstract: 5,
        int_environmental: 4,
        pain_tolerance: 3,
        behavior_flags: vec!["stubborn".to_string()],
    }
}

fn gorilla() -> AgentProfile {
    profile(500, 30, 12, 15, 20, 15)
}

fn agent_at(id: usize, team: Team, x: i32, y: i32) -> Agent {
    Agent::new_from_profile(id, team, x, y, &profile(50, 10, 10, 5, 8, 10))
}

#[test]
fn new_agent_copies_the_profile() {
    let p = profile(50, 10, 11, 5, 8, 12);
    let a = Agent::new_from_profile(3, Team::Solo, 4, 9, &p);
    assert_eq!(
        a,
        Agent {
            id: 3,
            team: Team::Solo,
            hp: 50,
            str_: 10,
            spd: 11,
            def: 5,
            base_damage: 8,
            crit_chance: 12,
            x: 4,
            y: 9,
            alive: true,
            damage_dealt: 0,
        }
    );
    assert!(a.is_alive());
}

#[test]
fn default_agent_is_a_blank_group_member() {
    let a = Agent::default();
    assert_eq!(a.id, 0);
    assert_eq!(a.team, Team::Group);
    assert_eq!((a.hp, a.str_, a.spd, a.def, a.base_damage, a.crit_chance), (0, 0, 0, 0, 0, 0));
    assert_eq!((a.x, a.y), (0, 0));
    assert!(a.alive);
    assert_eq!(a.damage_dealt, 0);
}

#[test]
fn damage_lowers_health_and_kills_at_zero() {
    let mut a = agent_at(0, Team::Group, 0, 0);
    a.take_damage(20);
    assert_eq!(a.hp, 30);
    assert!(a.is_alive());
    a.take_damage(30);
    assert_eq!(a.hp, 0);
    assert!(!a.is_alive());
}

#[test]
fn damage_beyond_health_leaves_negative_health() {
    let mut a = agent_at(0, Team::Group, 0, 0);
    a.take_damage(70);
    assert_eq!(a.hp, -20);
    assert!(!a.alive);
}

#[test]
fn a_dead_agent_can_be_struck_again_and_stays_dead() {
    let mut a = agent_at(0, Team::Group, 0, 0);
    a.take_damage(50);
    assert!(!a.alive);
    a.take_damage(5);
    assert_eq!(a.hp, -5);
    assert!(!a.alive);
    a.take_damage(0);
    assert_eq!(a.hp, -5);
    assert!(!a.alive);
}

#[test]
fn no_damage_changes_nothing() {
    let mut a = agent_at(0, Team::Group, 2, 3);
    let before = a;
    a.take_damage(0);
    assert_eq!(a, before);
}

#[test]
fn distance_is_manhattan() {
    let a = agent_at(0, Team::Group, 3, 7);
    let b = agent_at(1, Team::Solo, 10, 2);
    assert_eq!(a.distance_to(&b), 12);
    assert_eq!(b.distance_to(&a), 12);
    assert_eq!(a.distance_to(&a), 0);
}

#[test]
fn distance_along_one_axis() {
    let a = agent_at(0, Team::Group, 0, 0);
    let b = agent_at(1, Team::Solo, 0, 99);
    let c = agent_at(2, Team::Solo, 99, 0);
    assert_eq!(a.distance_to(&b), 99);
    assert_eq!(a.distance_to(&c), 99);
    assert_eq!(b.distance_to(&c), 198);
}

#[test]
fn target_is_the_nearest_living_enemy() {
    let agents = vec![
        agent_at(0, Team::Group, 0, 0),
        agent_at(1, Team::Solo, 9, 9),
        agent_at(2, Team::Solo, 2, 1),
        agent_at(3, Team::Group, 1, 0),
        agent_at(4, Team::Solo, 5, 0),
    ];
    assert_eq!(agents[0].select_target(&agents), Some(2));
    assert_eq!(agents[1].select_target(&agents), Some(3));
}

#[test]
fn equally_near_targets_are_taken_in_roster_order() {
    let agents = vec![
        agent_at(0, Team::Group, 5, 5),
        agent_at(1, Team::Solo, 5, 8),
        agent_at(2, Team::Solo, 8, 5),
        agent_at(3, Team::Solo, 2, 5),
    ];
    assert_eq!(agents[0].select_target(&agents), Some(1));
    let reordered = vec![agents[3], agents[0], agents[2], agents[1]];
    assert_eq!(reordered[1].select_target(&reordered), Some(0));
}

#[test]
fn dead_enemies_and_team_mates_are_no_targets() {
    let mut agents = vec![
        agent_at(0, Team::Group, 0, 0),
        agent_at(1, Team::Solo, 1, 0),
        agent_at(2, Team::Group, 0, 1),
        agent_at(3, Team::Solo, 7, 7),
    ];
    agents[1].take_damage(50);
    assert_eq!(agents[0].select_target(&agents), Some(3));
    agents[3].take_damage(50);
    assert_eq!(agents[0].select_target(&agents), None);
}

#[test]
fn an_agent_never_targets_itself() {
    let agents = vec![agent_at(0, Team::Group, 0, 0), agent_at(1, Team::Group, 1, 1)];
    assert_eq!(agents[0].select_target(&agents), None);
    assert_eq!(agents[1].select_target(&agents), None);
    let mixed = vec![agent_at(0, Team::Solo, 4, 4), agent_at(1, Team::Group, 4, 4)];
    assert_eq!(mixed[0].select_target(&mixed), Some(1));
    assert_eq!(mixed[1].select_target(&mixed), Some(0));
}

#[test]
fn no_agents_no_target() {
    let me = agent_at(0, Team::Group, 0, 0);
    assert_eq!(me.select_target(&[]), None);
}

#[test]
fn a_step_goes_along_the_columns_first() {
    let mut a = agent_at(0, Team::Group, 5, 5);
    a.move_towards_coords(9, 9, &[]);
    assert_eq!((a.x, a.y), (6, 5));
    a.move_towards_coords(0, 0, &[]);
    assert_eq!((a.x, a.y), (5, 5));
}

#[test]
fn a_blocked_column_step_gives_way_to_the_row_step() {
    let mut a = agent_at(0, Team::Group, 5, 5);
    a.move_towards_coords(9, 1, &[(6, 5)]);
    assert_eq!((a.x, a.y), (5, 4));
}

#[test]
fn an_agent_with_both_steps_blocked_stays() {
    let mut a = agent_at(0, Team::Group, 5, 5);
    a.move_towards_coords(9, 9, &[(6, 5), (5, 6)]);
    assert_eq!((a.x, a.y), (5, 5));
}

#[test]
fn in_the_target_column_the_own_cell_decides() {
    let mut a = agent_at(0, Team::Group, 5, 5);
    a.move_towards_coords(5, 9, &[(5, 5)]);
    assert_eq!((a.x, a.y), (5, 6));
    let mut b = agent_at(1, Team::Group, 5, 5);
    b.move_towards_coords(5, 9, &[]);
    assert_eq!((b.x, b.y), (5, 5));
}

#[test]
fn a_step_never_leaves_the_grid() {
    let mut a = agent_at(0, Team::Group, 99, 99);
    a.move_towards_coords(500, 500, &[(99, 99)]);
    assert_eq!((a.x, a.y), (99, 99));
    let mut b = agent_at(1, Team::Group, 0, 0);
    b.move_towards_coords(-7, -7, &[]);
    assert_eq!((b.x, b.y), (0, 0));
    let mut c = agent_at(2, Team::Group, 0, 50);
    c.move_towards_coords(-3, 50, &[(0, 50)]);
    assert_eq!((c.x, c.y), (0, 50));
}

#[test]
fn a_step_changes_one_coordinate_by_one() {
    for tx in [0, 40, 41, 42, 99] {
        for ty in [0, 40, 41, 42, 99] {
            let mut a = agent_at(0, Team::Group, 41, 41);
            a.move_towards_coords(tx, ty, &[(41, 41)]);
            let moved = (a.x - 41).abs() + (a.y - 41).abs();
            assert!(moved <= 1);
            assert_eq!(moved == 0, tx == 41 && ty == 41);
        }
    }
}

#[test]
fn a_step_keeps_everything_but_the_cell() {
    let mut a = agent_at(4, Team::Solo, 10, 10);
    a.damage_dealt = 17;
    let before = a;
    a.move_towards_coords(20, 20, &[]);
    assert_eq!(a, Agent { x: 11, ..before });
}

#[test]
fn an_agent_off_the_grid_is_brought_onto_it() {
    let mut a = agent_at(0, Team::Group, -5, 130);
    a.move_towards_coords(50, 50, &[]);
    assert_eq!((a.x, a.y), (0, 99));
}

#[test]
fn cells_are_found_among_cells() {
    let cells = [(1, 2), (3, 4), (1, 2)];
    assert!(holds_cell(&cells, (3, 4)));
    assert!(holds_cell(&cells, (1, 2)));
    assert!(!holds_cell(&cells, (2, 1)));
    assert!(!holds_cell(&[], (0, 0)));
}

#[test]
fn an_attack_misses_or_deals_the_damage_of_the_formula() {
    let mut misses = 0;
    let mut hits = 0;
    let mut crits = 0;
    for seed in 0..400u64 {
        let mut rng = StdRng::seed_from_u64(seed);
        let mut me = agent_at(0, Team::Group, 0, 0);
        let mut foe = Agent::new_from_profile(1, Team::Solo, 0, 1, &gorilla());
        let me_before = me;
        let foe_before = foe;
        let (critical, damage) = me.attack(&mut foe, 0, 0, &mut rng);
        if damage == 0 {
            misses += 1;
            assert!(!critical);
            assert_eq!(me, me_before);
            assert_eq!(foe, foe_before);
        } else {
            // 8 + 10 - 5 / 2, doubled when critical
            assert_eq!(damage, if critical { 32 } else { 16 });
            assert_eq!(foe, Agent { hp: 500 - damage, ..foe_before });
            assert_eq!(me, Agent { damage_dealt: damage as u32, ..me_before });
            hits += 1;
            if critical {
                crits += 1;
            }
        }
    }
    assert!(misses > 0);
    assert!(hits > 0);
    assert!(crits > 0);
    assert!(crits < hits);
}

#[test]
fn the_solitary_fighter_hits_by_its_own_formula() {
    let mut seen_plain = false;
    let mut seen_critical = false;
    for seed in 0..200u64 {
        let mut rng = StdRng::seed_from_u64(seed);
        let mut me = Agent::new_from_profile(0, Team::Solo, 0, 0, &gorilla());
        let mut foe = agent_at(1, Team::Group, 1, 0);
        let (critical, damage) = me.attack(&mut foe, 0, 0, &mut rng);
        if damage != 0 {
            // 20 + 2 * 30 - 15 / 2, doubled when critical
            assert_eq!(damage, if critical { 146 } else { 73 });
            assert_eq!(foe.hp, 50 - damage);
            assert!(!foe.alive);
            assert_eq!(me.damage_dealt, damage as u32);
            seen_plain = seen_plain || !critical;
            seen_critical = seen_critical || critical;
        }
    }
    assert!(seen_plain && seen_critical);
}

#[test]
fn allies_and_fatigue_enter_the_damage_of_the_group() {
    for seed in 0..200u64 {
        let mut rng = StdRng::seed_from_u64(seed);
        let mut me = Agent::new_from_profile(0, Team::Group, 0, 0, &profile(50, 10, 12, 30, 8, 10));
        let mut foe = Agent::new_from_profile(1, Team::Solo, 0, 1, &gorilla());
        // after 2 rounds the fatigue is 2: strength 10 - 4, defense 30 - 6;
        // with 4 allies the damage is 8 + 6 - 24 / 6
        let (critical, damage) = me.attack(&mut foe, 4, 2, &mut rng);
        if damage != 0 {
            assert_eq!(damage, if critical { 20 } else { 10 });
        }
    }
}

#[test]
fn the_same_seed_gives_the_same_attack() {
    for seed in [1u64, 2, 3, 99] {
        let mut first = StdRng::seed_from_u64(seed);
        let mut second = StdRng::seed_from_u64(seed);
        let mut a = agent_at(0, Team::Group, 0, 0);
        let mut b = agent_at(1, Team::Solo, 0, 1);
        let mut c = a;
        let mut d = b;
        let one = a.attack(&mut b, 1, 3, &mut first);
        let two = c.attack(&mut d, 1, 3, &mut second);
        assert_eq!(one, two);
        assert_eq!((a, b), (c, d));
    }
}

#[test]
fn a_blow_lands_when_the_draw_is_within_the_hit_chance() {
    let me = agent_at(0, Team::Group, 0, 0);
    let foe = Agent::new_from_profile(1, Team::Solo, 0, 1, &gorilla());
    // 60 + 5 * (10 - 12)
    assert!(me.blow_hits(&foe, 0, 0, 0, 50));
    assert!(!me.blow_hits(&foe, 0, 0, 0, 51));
    assert!(me.blow_hits(&foe, 0, 0, 10, 60));
    assert!(!me.blow_hits(&foe, 0, 0, -10, 41));
    // two allies add 6
    assert!(me.blow_hits(&foe, 2, 0, 0, 56));
    assert!(!me.blow_hits(&foe, 2, 0, 0, 57));
    // after 2 rounds the fatigue is 2 and the speed 8: 60 + 5 * (8 - 12)
    assert!(me.blow_hits(&foe, 0, 2, 0, 40));
    assert!(!me.blow_hits(&foe, 0, 2, 0, 41));
    // the solitary fighter: 65 + 8 * (12 - 10), and 65 + 8 * (9 - 10) after a round
    assert!(foe.blow_hits(&me, 0, 0, 0, 81));
    assert!(!foe.blow_hits(&me, 0, 0, 0, 82));
    assert!(foe.blow_hits(&me, 0, 1, 0, 57));
    assert!(!foe.blow_hits(&me, 0, 1, 0, 58));
}

#[test]
fn a_blow_that_lands_is_critical_when_the_draw_is_within_the_threshold() {
    let me = agent_at(0, Team::Group, 0, 0);
    let foe = Agent::new_from_profile(1, Team::Solo, 0, 1, &gorilla());
    let mut a = me;
    let mut b = foe;
    assert_eq!(a.deal_blow(&mut b, 0, 0, 0, 10), (true, 32));
    assert_eq!(a, Agent { damage_dealt: 32, ..me });
    assert_eq!(b, Agent { hp: 468, ..foe });
    assert_eq!(a.deal_blow(&mut b, 0, 0, 0, 11), (false, 16));
    assert_eq!(a, Agent { damage_dealt: 48, ..me });
    assert_eq!(b, Agent { hp: 452, ..foe });
    // one ally adds 2 to the threshold and divides the defense by 3
    assert_eq!(a.deal_blow(&mut b, 1, 0, 5, 17), (true, 34));
    assert_eq!(a.deal_blow(&mut b, 1, 0, 5, 18), (false, 17));
    assert_eq!(b.hp, 401);
}

#[test]
fn a_blow_of_the_solitary_fighter_fells_a_member_of_the_group() {
    let mut me = Agent::new_from_profile(0, Team::Solo, 0, 0, &gorilla());
    let mut foe = agent_at(1, Team::Group, 0, 1);
    // after one round the fatigue is 3: 20 + 2 * (30 - 6) - (15 - 9) / 2
    assert_eq!(me.deal_blow(&mut foe, 0, 1, -10, 5), (true, 130));
    assert_eq!(foe.hp, -80);
    assert!(!foe.alive);
    assert_eq!(me.damage_dealt, 130);
    let mut other = agent_at(2, Team::Group, 1, 0);
    assert_eq!(me.deal_blow(&mut other, 9, 1, -10, 6), (false, 65));
    assert_eq!(other.hp, -15);
    assert_eq!(me.damage_dealt, 195);
}
