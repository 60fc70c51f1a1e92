use battle_sim::causal::CausalMetrics;
use battle_sim::character_profiles::AgentProfile;
use battle_sim::combat::MAX_HIT;
use battle_sim::models::{Agent, Team};
use battle_sim::roster::{any_living, count_nearby_allies};
use battle_sim::round::{attack_order, execute_round, occupied_cells, team_order};
use battle_sim::simulation::{run_rounds, simulation_active, MAX_ROUNDS, STALEMATE_ROUNDS};
use battle_sim::turn::{plan_turn, take_turn, Action, TurnReport};
use rand::rngs::StdRng;
use rand::SeedableRng;
use std::collections::HashSet;

fn man() -> AgentProfile {
    AgentProfile {
        hp: 50,
        str_: 10,
        spd: 10,
        def: 5,
        base_damage: 8,
        crit_chance: 10,
        endurance: 0,
        dexterity: 0,
        int_abstract: 0,
        int_environmental: 0,
        pain_tolerance: 0,
        behavior_flags: Vec::new(),
    }
}

fn gorilla() -> AgentProfile {
    AgentProfile { hp: 500, str_: 30, spd: 12, def: 15, base_damage: 20, crit_chance: 15, ..man() }
}

fn group_at(id: usize, x: i32, y: i32) -> Agent {
    Agent::new_from_profile(id, Team::Group, x, y, &man())
}

fn solo_at(id: usize, x: i32, y: i32) -> Agent {
    Agent::new_from_profile(id, Team::Solo, x, y, &gorilla())
}

fn dead(mut a: Agent) -> Agent {
    a.hp = 0;
    a.alive = false;
    a
}

fn crowd(seed: u64) -> Vec<Agent> {
    let mut agents = Vec::new();
    let mut state = seed;
    for id in 0..40usize {
        state = state.wrapping_mul(6364136223846793005).wrapping_add(1442695040888963407);
        let x = ((state >> 33) % 12) as i32 + 40;
        let y = ((state >> 45) % 12) as i32 + 40;
        if id % 8 == 7 {
            agents.push(solo_at(id, x, y));
        } else {
            agents.push(group_at(id, x, y));
        }
    }
    agents
}

fn check_step(before: &[Agent], after: &[Agent]) {
    assert_eq!(before.len(), after.len());
    for (a, b) in before.iter().zip(after.iter()) {
        assert_eq!(
            (b.id, b.team, b.str_, b.spd, b.def, b.base_damage, b.crit_chance),
            (a.id, a.team, a.str_, a.spd, a.def, a.base_damage, a.crit_chance)
        );
        assert!(b.damage_dealt >= a.damage_dealt);
        assert!(b.hp <= a.hp);
        assert_eq!(b.alive, b.hp > 0);
        assert!(0 <= b.x && b.x < 100 && 0 <= b.y && b.y < 100);
        if !a.alive {
            assert_eq!(a, b);
        }
    }
}

#[test]
fn the_team_order_lists_the_group_first() {
    let agents = vec![
        solo_at(0, 0, 0),
        group_at(1, 1, 0),
        solo_at(2, 2, 0),
        group_at(3, 3, 0),
        group_at(4, 4, 0),
    ];
    assert_eq!(team_order(&agents), vec![1, 3, 4, 0, 2]);
    assert_eq!(team_order(&Vec::new()), Vec::<usize>::new());
    assert_eq!(team_order(&vec![solo_at(0, 0, 0)]), vec![0]);
}

#[test]
fn the_attack_order_names_every_agent_once() {
    let agents = crowd(1);
    for seed in 0..20u64 {
        let mut rng = StdRng::seed_from_u64(seed);
        let mut order = attack_order(&agents, &mut rng);
        order.sort();
        assert_eq!(order, (0..agents.len()).collect::<Vec<usize>>());
    }
}

#[test]
fn the_attack_order_is_shuffled() {
    let agents = crowd(2);
    let sorted = team_order(&agents);
    let mut rng = StdRng::seed_from_u64(4);
    let first = attack_order(&agents, &mut rng);
    let second = attack_order(&agents, &mut rng);
    assert_ne!(first, sorted);
    assert_ne!(second, sorted);
    assert_ne!(first, second);
    let mut again = StdRng::seed_from_u64(4);
    assert_eq!(attack_order(&agents, &mut again), first);
}

#[test]
fn the_cells_of_the_dead_count_as_occupied() {
    let agents = vec![group_at(0, 1, 2), dead(solo_at(1, 3, 4)), group_at(2, 1, 2)];
    assert_eq!(occupied_cells(&agents), vec![(1, 2), (3, 4), (1, 2)]);
}

#[test]
fn allies_are_living_group_members_in_reach_of_two() {
    let agents = vec![
        group_at(0, 10, 10),
        group_at(1, 10, 12),
        group_at(2, 11, 11),
        group_at(3, 12, 11),
        dead(group_at(4, 10, 11)),
        solo_at(5, 10, 9),
        group_at(6, 10, 10),
    ];
    assert_eq!(count_nearby_allies(&agents, 0), 3);
    assert_eq!(count_nearby_allies(&agents, 3), 1);
    assert_eq!(count_nearby_allies(&agents, 1), 3);
}

#[test]
fn a_dead_agent_plans_nothing() {
    let agents = vec![dead(group_at(0, 0, 0)), solo_at(1, 0, 1)];
    assert_eq!(plan_turn(&agents, 0, &HashSet::new()), Action::Idle);
}

#[test]
fn an_agent_without_enemies_plans_nothing() {
    let agents = vec![group_at(0, 0, 0), group_at(1, 0, 1), dead(solo_at(2, 1, 0))];
    assert_eq!(plan_turn(&agents, 0, &HashSet::new()), Action::Idle);
    assert_eq!(plan_turn(&agents, 1, &HashSet::new()), Action::Idle);
}

#[test]
fn a_far_target_is_approached_and_a_near_one_attacked() {
    let agents = vec![group_at(0, 0, 0), solo_at(1, 0, 2), group_at(2, 1, 2), group_at(3, 0, 2)];
    let none = HashSet::new();
    assert_eq!(plan_turn(&agents, 0, &none), Action::Advance { tx: 0, ty: 2 });
    assert_eq!(plan_turn(&agents, 2, &none), Action::Strike { target: 1 });
    assert_eq!(plan_turn(&agents, 3, &none), Action::Strike { target: 1 });
    assert_eq!(plan_turn(&agents, 1, &none), Action::Strike { target: 3 });
}

#[test]
fn a_target_already_attacked_is_left_alone() {
    let agents = vec![group_at(0, 0, 0), solo_at(1, 0, 1), solo_at(2, 5, 5)];
    let mut struck = HashSet::new();
    struck.insert(1);
    assert_eq!(plan_turn(&agents, 0, &struck), Action::Idle);
    struck.clear();
    struck.insert(2);
    assert_eq!(plan_turn(&agents, 0, &struck), Action::Strike { target: 1 });
}

#[test]
fn an_advancing_agent_steps_past_occupied_cells() {
    let mut agents = vec![group_at(0, 5, 5), solo_at(1, 9, 9), group_at(2, 6, 5)];
    let occupied = occupied_cells(&agents);
    let mut struck = HashSet::new();
    let mut rng = StdRng::seed_from_u64(1);
    let before = agents.clone();
    let report = take_turn(&mut agents, 0, &occupied, &mut struck, 0, &mut rng);
    assert_eq!(
        report,
        TurnReport {
            action: Action::Advance { tx: 9, ty: 9 },
            damage: 0,
            critical: false,
            fatal: false,
        }
    );
    assert_eq!(agents[0], Agent { y: 6, ..before[0] });
    assert_eq!(agents[1..], before[1..]);
    assert!(struck.is_empty());
}

#[test]
fn an_idle_turn_changes_nothing() {
    let mut agents = vec![dead(group_at(0, 5, 5)), solo_at(1, 5, 6)];
    let occupied = occupied_cells(&agents);
    let mut struck = HashSet::new();
    let mut rng = StdRng::seed_from_u64(1);
    let before = agents.clone();
    let report = take_turn(&mut agents, 0, &occupied, &mut struck, 3, &mut rng);
    assert_eq!(
        report,
        TurnReport { action: Action::Idle, damage: 0, critical: false, fatal: false }
    );
    assert_eq!(agents, before);
    let report = take_turn(&mut agents, 1, &occupied, &mut struck, 3, &mut rng);
    assert_eq!(report.action, Action::Idle);
    assert_eq!(agents, before);
}

#[test]
fn a_strike_wounds_the_target_and_credits_the_attacker() {
    let mut hits = 0;
    let mut kills = 0;
    for seed in 0..300u64 {
        let mut agents =
            vec![group_at(0, 5, 5), solo_at(1, 5, 6), group_at(2, 6, 5), group_at(3, 50, 50)];
        let occupied = occupied_cells(&agents);
        let mut struck = HashSet::new();
        let mut rng = StdRng::seed_from_u64(seed);
        let before = agents.clone();
        let who = (seed % 2) as usize;
        let report = take_turn(&mut agents, who, &occupied, &mut struck, 0, &mut rng);
        let target = 1 - who;
        assert_eq!(report.action, Action::Strike { target });
        assert_eq!(agents[2..], before[2..]);
        assert_eq!(struck.iter().copied().collect::<Vec<usize>>(), vec![target]);
        if report.damage == 0 {
            assert!(!report.critical && !report.fatal);
            assert_eq!(agents, before);
        } else {
            hits += 1;
            // the group member has one ally in reach: 8 + 10 - 5 / 3;
            // the solitary fighter: 20 + 2 * 30 - 15 / 2
            let plain = if who == 0 { 17 } else { 73 };
            assert_eq!(report.damage, if report.critical { 2 * plain } else { plain });
            assert_eq!(agents[who], Agent { damage_dealt: report.damage as u32, ..before[who] });
            let hp = before[target].hp - report.damage;
            assert_eq!(agents[target], Agent { hp, alive: hp > 0, ..before[target] });
            assert_eq!(report.fatal, hp <= 0);
            if report.fatal {
                kills += 1;
            }
        }
    }
    assert!(hits > 50);
    assert!(kills > 10);
}

#[test]
fn the_same_seed_gives_the_same_turns() {
    let play = |seed: u64| {
        let mut agents = vec![group_at(0, 5, 5), Agent { hp: 5000, ..solo_at(1, 5, 6) }];
        agents[0].hp = 5000;
        let occupied = occupied_cells(&agents);
        let mut rng = StdRng::seed_from_u64(seed);
        let mut reports = Vec::new();
        for turn in 0..40usize {
            let mut struck = HashSet::new();
            reports.push(take_turn(&mut agents, turn % 2, &occupied, &mut struck, 0, &mut rng));
        }
        (reports, agents)
    };
    let (first, left) = play(2024);
    let (second, right) = play(2024);
    assert_eq!(first, second);
    assert_eq!(left, right);
    assert!(first.iter().any(|r| r.damage > 0));
    assert!(first.iter().any(|r| r.damage == 0));
    let (other, _) = play(2025);
    assert_ne!(first, other);
}

#[test]
fn no_agent_is_attacked_twice_in_a_round() {
    // nine members of the group around one solitary fighter, all in reach
    let mut blows = 0;
    for seed in 0..60u64 {
        let mut agents = vec![Agent { hp: 100_000, ..solo_at(0, 50, 50) }];
        for id in 1..5usize {
            agents.push(group_at(id, 50, 51));
            agents.push(group_at(id + 4, 51, 50));
        }
        let before = agents.clone();
        let mut causal = CausalMetrics::new();
        let mut rng = StdRng::seed_from_u64(seed);
        let damage = execute_round(&mut agents, &mut causal, &mut rng);
        let attackers = agents.iter().filter(|a| a.damage_dealt > 0).count();
        let groups_hitting = agents[1..].iter().filter(|a| a.damage_dealt > 0).count();
        let victims = before.iter().zip(agents.iter()).filter(|(a, b)| a.hp != b.hp).count();
        assert!(groups_hitting <= 1);
        assert!(attackers <= 2);
        assert!(victims <= 2);
        // seven allies in reach of two: 8 + 10 - 5 / 9, doubled when critical
        let lost = before[0].hp - agents[0].hp;
        assert!(lost == 0 || lost == 18 || lost == 36);
        assert_eq!(damage, agents.iter().map(|a| a.damage_dealt as i32).sum::<i32>());
        blows += victims;
    }
    assert!(blows > 30);
}

#[test]
fn a_round_between_two_adjacent_agents() {
    let mut some_damage = false;
    for seed in 0..100u64 {
        let mut agents = vec![group_at(0, 5, 5), solo_at(1, 5, 6)];
        let before = agents.clone();
        let mut causal = CausalMetrics::new();
        let mut rng = StdRng::seed_from_u64(seed);
        let damage = execute_round(&mut agents, &mut causal, &mut rng);
        check_step(&before, &agents);
        assert!(damage >= 0);
        let dealt: u32 = agents.iter().map(|a| a.damage_dealt).sum();
        assert_eq!(damage as u32, dealt);
        let lost: i32 = before.iter().zip(agents.iter()).map(|(a, b)| a.hp - b.hp).sum();
        assert_eq!(damage, lost);
        assert_eq!((agents[0].x, agents[0].y, agents[1].x, agents[1].y), (5, 5, 5, 6));
        assert_eq!(causal.rounds_engaged, 0);
        assert!(causal.total_critical_hits <= 2);
        assert_eq!(causal.solo_final_blow, !agents[0].alive);
        some_damage = some_damage || damage > 0;
    }
    assert!(some_damage);
}

#[test]
fn a_round_of_a_crowd_keeps_the_laws() {
    for seed in 0..30u64 {
        let mut agents = crowd(seed);
        let mut causal = CausalMetrics::new();
        let mut rng = StdRng::seed_from_u64(seed);
        for round in 0..20u32 {
            let before = agents.clone();
            let crits = causal.total_critical_hits;
            causal.rounds_engaged = round;
            let damage = execute_round(&mut agents, &mut causal, &mut rng);
            check_step(&before, &agents);
            assert!(damage >= 0);
            let gained: u32 = before
                .iter()
                .zip(agents.iter())
                .map(|(a, b)| b.damage_dealt - a.damage_dealt)
                .sum();
            assert_eq!(damage as u32, gained);
            for (a, b) in before.iter().zip(agents.iter()) {
                assert!(b.damage_dealt - a.damage_dealt <= MAX_HIT as u32);
                assert!((a.x - b.x).abs() + (a.y - b.y).abs() <= 1);
                // each agent is struck at most once in a round
                assert!(a.hp - b.hp <= 2 * 73);
            }
            assert!(causal.total_critical_hits >= crits);
            assert!(causal.total_critical_hits - crits <= agents.len() as u32);
            assert_eq!(causal.rounds_engaged, round);
        }
    }
}

#[test]
fn without_a_death_the_mark_of_the_final_blow_stands() {
    for mark in [false, true] {
        let mut agents = vec![group_at(0, 5, 5), solo_at(1, 50, 60)];
        let mut causal = CausalMetrics { solo_final_blow: mark, ..CausalMetrics::new() };
        let mut rng = StdRng::seed_from_u64(9);
        let damage = execute_round(&mut agents, &mut causal, &mut rng);
        assert_eq!(damage, 0);
        assert_eq!(causal, CausalMetrics { solo_final_blow: mark, ..CausalMetrics::new() });
    }
}

#[test]
fn the_battle_is_active_while_both_teams_live() {
    let both = vec![group_at(0, 0, 0), solo_at(1, 9, 9)];
    assert!(simulation_active(&both));
    assert!(any_living(&both, Team::Group) && any_living(&both, Team::Solo));
    let group_only = vec![group_at(0, 0, 0), dead(solo_at(1, 9, 9))];
    assert!(!simulation_active(&group_only));
    assert!(!any_living(&group_only, Team::Solo));
    let solo_only = vec![dead(group_at(0, 0, 0)), solo_at(1, 9, 9), dead(group_at(2, 0, 1))];
    assert!(!simulation_active(&solo_only));
    assert!(!simulation_active(&Vec::new()));
}

#[test]
fn a_seeded_duel_at_arms_length_is_reproducible() {
    let duel = |seed: u64| {
        let mut agents = vec![group_at(0, 20, 20), solo_at(1, 20, 21)];
        let mut causal = CausalMetrics::new();
        let mut rng = StdRng::seed_from_u64(seed);
        let log = run_rounds(&mut agents, &mut causal, &mut rng);
        (log, agents, causal)
    };
    let mut solo_wins = 0;
    let mut outcomes = Vec::new();
    for seed in 0..50u64 {
        let (log, agents, causal) = duel(seed);
        assert_eq!(duel(seed), (log.clone(), agents.clone(), causal));
        // before fatigue sets in the group member deals 8 + 10 - 5 / 2 and
        // the solitary fighter 20 + 2 * 30 - 15 / 2, each doubled when critical
        assert!([0, 16, 32, 73, 89, 105, 146, 162, 178].contains(&log[0]));
        let group_alive = agents[0].alive;
        let solo_alive = agents[1].alive;
        assert!(group_alive != solo_alive || (group_alive && log.len() >= 10));
        if !group_alive {
            solo_wins += 1;
            assert!(causal.solo_final_blow);
            // even at full fatigue one blow of the solitary fighter is fatal
            assert!(agents[1].damage_dealt >= 56);
            assert_eq!(agents[0].hp, 50 - agents[1].damage_dealt as i32);
        }
        outcomes.push(log);
    }
    assert!(solo_wins > 40);
    assert!(outcomes.iter().any(|log| *log != outcomes[0]));
}

#[test]
fn agents_out_of_reach_end_in_a_stalemate() {
    let mut agents = vec![group_at(0, 0, 0), solo_at(1, 99, 99)];
    let mut causal = CausalMetrics::new();
    let mut rng = StdRng::seed_from_u64(1);
    let log = run_rounds(&mut agents, &mut causal, &mut rng);
    assert_eq!(log, vec![0; STALEMATE_ROUNDS as usize]);
    assert_eq!(causal, CausalMetrics::new());
    assert!(agents[0].alive && agents[1].alive);
    assert_eq!((agents[0].x, agents[0].y), (10, 0));
    assert_eq!((agents[1].x, agents[1].y), (89, 99));
}

#[test]
fn a_decided_battle_runs_no_round() {
    let mut agents = vec![group_at(0, 0, 0), dead(solo_at(1, 0, 1))];
    let before = agents.clone();
    let mut causal = CausalMetrics::new();
    let mut rng = StdRng::seed_from_u64(1);
    let log = run_rounds(&mut agents, &mut causal, &mut rng);
    assert!(log.is_empty());
    assert_eq!(agents, before);
    assert_eq!(causal, CausalMetrics::new());
}

#[test]
fn a_fight_runs_until_one_side_is_down() {
    for seed in 0..40u64 {
        let mut agents = vec![group_at(0, 5, 5), solo_at(1, 5, 6)];
        let before = agents.clone();
        let mut causal = CausalMetrics::new();
        let mut rng = StdRng::seed_from_u64(seed);
        let log = run_rounds(&mut agents, &mut causal, &mut rng);
        check_step(&before, &agents);
        assert!(!log.is_empty() && log.len() <= MAX_ROUNDS as usize);
        assert!(log.iter().all(|d| *d >= 0));
        let engaged = log.iter().filter(|d| **d > 0).count() as u32;
        assert_eq!(causal.rounds_engaged, engaged);
        let dealt: u32 = agents.iter().map(|a| a.damage_dealt).sum();
        assert_eq!(log.iter().map(|d| *d as u32).sum::<u32>(), dealt);
        if simulation_active(&agents) {
            assert!(log.len() >= 10 && log.len() < MAX_ROUNDS as usize);
            assert!(log[log.len() - 10..].iter().all(|d| *d == 0));
        } else {
            assert!(*log.last().unwrap() > 0);
            assert_eq!(causal.solo_final_blow, !agents[0].alive);
        }
    }
}

#[test]
fn ten_idle_rounds_in_a_row_only_end_a_log() {
    for seed in 0..25u64 {
        let mut agents = crowd(seed);
        for a in agents.iter_mut() {
            a.x = (a.x - 40) * 8;
            a.y = (a.y - 40) * 8;
        }
        let mut causal = CausalMetrics::new();
        let mut rng = StdRng::seed_from_u64(seed);
        let log = run_rounds(&mut agents, &mut causal, &mut rng);
        assert!(log.len() <= MAX_ROUNDS as usize);
        for end in 10..log.len() {
            assert!(log[end - 10..end].iter().any(|d| *d != 0));
        }
        let last_damage = log.iter().rposition(|d| *d > 0).map_or(0, |r| r + 1);
        assert!(log.len() <= last_damage + 10);
        if log.len() < MAX_ROUNDS as usize && simulation_active(&agents) {
            assert_eq!(log.len(), last_damage + 10);
        }
    }
}

#[test]
fn sturdy_fighters_reach_the_cap_of_rounds() {
    let sturdy = AgentProfile { hp: 1_000_000_000, spd: 1, ..man() };
    let mut agents = vec![
        Agent::new_from_profile(0, Team::Group, 5, 5, &sturdy),
        Agent::new_from_profile(1, Team::Solo, 5, 6, &sturdy),
    ];
    let mut causal = CausalMetrics::new();
    let mut rng = StdRng::seed_from_u64(77);
    let log = run_rounds(&mut agents, &mut causal, &mut rng);
    assert_eq!(log.len(), MAX_ROUNDS as usize);
    assert!(simulation_active(&agents));
    assert!(causal.rounds_engaged > 500);
    assert!(causal.rounds_engaged <= MAX_ROUNDS);
    let dealt: i64 = agents.iter().map(|a| a.damage_dealt as i64).sum();
    assert_eq!(log.iter().map(|d| *d as i64).sum::<i64>(), dealt);
    assert!(!causal.solo_final_blow);
}
