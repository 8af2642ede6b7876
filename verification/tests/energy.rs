use rise_above::agent::{Agent, Race, RaceBottom, SocialAttributes};
use rise_above::collision::CollisionEvent;
use rise_above::energy::{
    character_frequency, energy_ground_state, guardian_proximity, playback_rate,
    update_agent_properties, update_movement_params, winning_condition,
};
use rise_above::fixed::Fixed;
use rise_above::game::{Food, Game, GameStage, KdTrees};
use rise_above::motion::MovementParams;
use rise_above::tick::{eat_food, find_food};
use rise_above::vec2::Vec2;
use rise_above::worldgen::RaceAttributes;

fn fx(v: f64) -> Fixed {
    Fixed::new((v * 1_000_000.0).round() as i64)
}

fn v2(x: f64, y: f64) -> Vec2 {
    Vec2::new(fx(x), fx(y))
}

fn agent(id: u32, x: f64, y: f64, mass: f64) -> Agent {
    let attributes = RaceAttributes {
        social_attributes: SocialAttributes {
            aggressivity: fx(0.5),
            altruism: fx(0.5),
            collectioneur: fx(0.5),
        },
        memory_time: fx(2.0),
    };
    let mut a = Agent::spawn(
        id,
        v2(x, y),
        fx(mass),
        Race::Bottom(RaceBottom::Ameoba),
        attributes,
        fx(0.0),
        false,
        v2(0.0, 0.0),
    );
    a.look_at_dir = v2(1.0, 0.0);
    a
}

fn world(agents: Vec<Agent>, foods: Vec<Food>) -> (Game, KdTrees) {
    let game = Game { time: fx(0.0), game_stage: GameStage::Bottom, agents, foods, won: false };
    let mut kdtrees = KdTrees::new();
    kdtrees.populate(&game);
    (game, kdtrees)
}

fn event(agent_id: u32, other_agent_id: u32, other_is_guardian: bool) -> CollisionEvent {
    CollisionEvent { agent_id, other_agent_id, other_is_guardian }
}

fn food(id: u32, x: f64, y: f64) -> Food {
    Food { position: v2(x, y), energy: fx(0.01), mass: fx(0.02), id, acc: v2(0.0, 0.0) }
}

#[test]
fn a_hit_on_someone_new_raises_the_energy_and_on_the_same_one_lowers_it() {
    let mut a = agent(5, 0.0, 0.0, 0.05);
    a.feel(&event(5, 7, false), fx(3.0));
    assert_eq!(a.energy, fx(1.03));
    assert_eq!(a.last_agent_hit, 7);
    assert_eq!(a.last_collision_time, fx(3.0));
    a.feel(&event(5, 7, false), fx(4.0));
    // 1.03 * 0.97
    assert_eq!(a.energy.raw, 999_100);
    assert_eq!(a.last_collision_time, fx(4.0));
    a.feel(&event(5, 8, true), fx(5.0));
    // only the player is smashed by a guardian: 0.9991 * 1.03
    assert_eq!(a.energy.raw, 1_029_073);
    assert_eq!(a.last_agent_hit, 8);
}

#[test]
fn a_guardian_halves_the_energy_of_the_player() {
    let mut p = agent(1, 0.0, 0.0, 0.05);
    p.feel(&event(1, 20, true), fx(3.0));
    // 1 * 0.5 * 1.03
    assert_eq!(p.energy.raw, 515_000);
    p.feel(&event(1, 20, true), fx(3.5));
    // 0.515 * 0.5 * 0.97
    assert_eq!(p.energy.raw, 249_775);
}

#[test]
fn every_event_is_felt_once_by_the_agent_it_is_about() {
    let (mut game, _) =
        world(vec![agent(1, 0.0, 0.0, 0.05), agent(2, 1.0, 0.0, 0.05), agent(3, 2.0, 0.0, 0.05)], vec![]);
    let events =
        vec![event(3, 1, false), event(1, 3, false), event(99, 1, false), event(1, 3, false)];
    update_agent_properties(&mut game, &events, fx(9.0));
    // agent 1: up once, then down once
    assert_eq!(game.agents[0].energy.raw, 999_100);
    assert_eq!(game.agents[0].last_agent_hit, 3);
    assert_eq!(game.agents[0].last_collision_time, fx(9.0));
    assert_eq!(game.agents[1].energy, fx(1.0));
    assert_eq!(game.agents[1].last_collision_time, fx(0.0));
    assert_eq!(game.agents[2].energy, fx(1.03));
    assert_eq!(game.agents[2].last_agent_hit, 1);
}

#[test]
fn at_rest_the_energy_settles_at_the_ground_state() {
    let mut a = agent(5, 0.0, 0.0, 0.05);
    a.last_collision_time = fx(1.0);
    a.energy = fx(0.5);
    // not yet at rest: 2.5 - 1.0 is not more than 1.5
    a.relax(fx(2.5));
    assert_eq!(a.energy, fx(0.5));
    a.relax(fx(2.500001));
    assert_eq!(a.energy, fx(0.51));
    a.energy = fx(0.999999);
    a.relax(fx(10.0));
    assert_eq!(a.energy.raw, 1_009_999);
    a.energy = fx(1.5);
    a.relax(fx(10.0));
    // 1.5 - 0.0001 * 0.5
    assert_eq!(a.energy.raw, 1_499_950);
    a.energy = fx(1.0);
    a.relax(fx(10.0));
    assert_eq!(a.energy, fx(1.0));
    let mut b = agent(6, 0.0, 0.0, 0.05);
    b.energy = fx(0.2);
    b.last_collision_time = fx(9.0);
    let mut c = agent(7, 0.0, 0.0, 0.05);
    c.energy = fx(0.2);
    let (mut game, _) = world(vec![b, c], vec![]);
    energy_ground_state(&mut game, fx(10.0));
    assert_eq!(game.agents[0].energy, fx(0.2));
    assert_eq!(game.agents[1].energy, fx(0.21));
}

#[test]
fn the_world_is_won_once_when_the_player_reaches_the_surface() {
    let (mut game, _) = world(vec![agent(2, 0.0, 6500.0, 0.05), agent(1, 0.0, 6000.0, 0.05)], vec![]);
    // the surface lies 1000 below the top of 7000
    assert!(!winning_condition(&mut game));
    assert!(!game.won);
    game.agents[1].position = v2(0.0, 6000.000001);
    assert!(winning_condition(&mut game));
    assert!(game.won);
    assert!(!winning_condition(&mut game));
    assert!(game.won);
    let (mut empty, _) = world(vec![agent(2, 0.0, 6500.0, 0.05)], vec![]);
    assert!(!winning_condition(&mut empty));
}

#[test]
fn the_stage_of_motion_follows_the_energy_of_the_player() {
    let (mut game, _) = world(vec![agent(1, 0.0, 0.0, 0.05)], vec![]);
    let mut params = MovementParams::stage1();
    game.agents[0].energy = fx(0.12);
    update_movement_params(&mut params, &game);
    assert_eq!(params, MovementParams::stage1());
    game.agents[0].energy = fx(0.120001);
    update_movement_params(&mut params, &game);
    assert_eq!(params, MovementParams::stage2());
    game.agents[0].energy = fx(0.2);
    update_movement_params(&mut params, &game);
    assert_eq!(params, MovementParams::stage2());
    game.agents[0].energy = fx(0.200001);
    update_movement_params(&mut params, &game);
    assert_eq!(params, MovementParams::stage3());
    game.agents[0].energy = fx(0.0);
    update_movement_params(&mut params, &game);
    assert_eq!(params, MovementParams::stage3());
    game.agents[0].id = 2;
    let mut other = MovementParams::default();
    update_movement_params(&mut other, &game);
    assert_eq!(other, MovementParams::default());
}

#[test]
fn what_the_world_tells_those_who_watch_and_listen() {
    // 0.25 + energy / 2.5, between 0.25 and 0.98
    assert_eq!(character_frequency(fx(0.0)), fx(0.25));
    assert_eq!(character_frequency(fx(1.0)), fx(0.65));
    assert_eq!(character_frequency(fx(5.0)), fx(0.98));
    assert_eq!(character_frequency(fx(-3.0)), fx(0.25));
    // 1 + 10 / distance * 3, between 1 and 3
    assert_eq!(playback_rate(fx(100.0)), fx(1.3));
    assert_eq!(playback_rate(fx(10.0)), fx(3.0));
    assert_eq!(playback_rate(fx(0.0)), fx(3.0));
    assert_eq!(playback_rate(fx(1_000_000.0)).raw, 1_000_030);
}

#[test]
fn the_nearest_agent_counts_if_it_is_a_guardian() {
    let mut g = agent(20, 30.0, 40.0, 0.15);
    g.is_guardian = true;
    let (game, kdtrees) = world(vec![agent(1, 0.0, 0.0, 0.05), g, agent(3, 100.0, 0.0, 0.05)], vec![]);
    assert_eq!(guardian_proximity(&game, &kdtrees), Some(fx(50.0)));
    let (near, near_trees) =
        world(vec![agent(1, 0.0, 0.0, 0.05), agent(3, 10.0, 0.0, 0.05)], vec![]);
    assert_eq!(guardian_proximity(&near, &near_trees), None);
    let (alone, alone_trees) = world(vec![agent(1, 0.0, 0.0, 0.05)], vec![]);
    assert_eq!(guardian_proximity(&alone, &alone_trees), None);
    let (nobody, nobody_trees) = world(vec![agent(2, 0.0, 0.0, 0.05)], vec![]);
    assert_eq!(guardian_proximity(&nobody, &nobody_trees), None);
}

#[test]
fn food_within_reach_is_eaten_once_and_is_gone() {
    // reach: half the mass, 0.5 for a mass of 1
    let (mut game, kdtrees) = world(
        vec![agent(1, 0.0, 0.0, 1.0), agent(2, 0.6, 0.0, 1.0), agent(3, 50.0, 50.0, 1.0)],
        vec![food(10, 0.3, 0.0), food(11, 0.0, 0.5), food(12, 1.1, 0.0), food(13, 9.0, 9.0)],
    );
    eat_food(&mut game, &kdtrees);
    // agent 1 eats 10 and 11; agent 2 would reach 10 too, but it is gone; it eats 12
    assert_eq!(game.agents[0].mass, fx(1.04));
    assert_eq!(game.agents[0].energy, fx(1.02));
    assert_eq!(game.agents[1].mass, fx(1.02));
    assert_eq!(game.agents[1].energy, fx(1.01));
    assert_eq!(game.agents[2].mass, fx(1.0));
    assert_eq!(game.foods, vec![food(13, 9.0, 9.0)]);
    assert_eq!(find_food(&game.foods, 13), Some(0));
    assert_eq!(find_food(&game.foods, 10), None);
    let mut a = agent(4, 0.0, 0.0, 0.05);
    a.consume_food(&food(1, 0.0, 0.0));
    assert_eq!(a.mass, fx(0.07));
    assert_eq!(a.energy, fx(1.01));
}
