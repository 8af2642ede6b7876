use rise_above::agent::{Agent, Race, RaceBottom, SocialAttributes};
use rise_above::collision::{
    atoms_touching, broad_phase_hit, candidate_contact, collisions, detect_collisions,
    elastic_velocities, mass_exchange, narrow_phase, CollisionEvent,
};
use rise_above::fixed::{Fixed, LIMIT};
use rise_above::game::{Game, GameStage, KdTrees};
use rise_above::vec2::Vec2;
use rise_above::worldgen::RaceAttributes;

fn fx(v: f64) -> Fixed {
    Fixed::new((v * 1_000_000.0).round() as i64)
}

fn v2(x: f64, y: f64) -> Vec2 {
    Vec2::new(fx(x), fx(y))
}

fn agent(id: u32, x: f64, y: f64, mass: f64) -> Agent {
    let attributes = RaceAttributes {
        social_attributes: SocialAttributes {
            aggressivity: fx(0.5),
            altruism: fx(0.5),
            collectioneur: fx(0.5),
        },
        memory_time: fx(2.0),
    };
    let mut a = Agent::spawn(
        id,
        v2(x, y),
        fx(mass),
        Race::Bottom(RaceBottom::Ameoba),
        attributes,
        fx(0.0),
        false,
        v2(0.0, 0.0),
    );
    a.look_at_dir = v2(1.0, 0.0);
    // one sub-body at the centre
    a.set_body_plan(&vec![v2(0.0, 0.0)]);
    a
}

fn world(agents: Vec<Agent>) -> (Game, KdTrees) {
    let game =
        Game { time: fx(0.0), game_stage: GameStage::Bottom, agents, foods: vec![], won: false };
    let mut kdtrees = KdTrees::new();
    kdtrees.populate(&game);
    (game, kdtrees)
}

#[test]
fn two_stationary_agents_that_overlap_collide_once() {
    // masses 0.05: radii 7.5 each; centres 14 apart: the sub-bodies overlap by 1
    let (mut game, kdtrees) = world(vec![agent(10, 100.0, 100.0, 0.05), agent(11, 114.0, 100.0, 0.05)]);
    let events = collisions(&mut game, &kdtrees);
    assert!(game.agents[0].just_collided);
    assert!(game.agents[1].just_collided);
    assert_eq!(
        events,
        vec![
            CollisionEvent { agent_id: 10, other_agent_id: 11, other_is_guardian: false },
            CollisionEvent { agent_id: 11, other_agent_id: 10, other_is_guardian: false },
        ]
    );
    // the first of two equal ones hands over 3 % of its mass
    assert_eq!(game.agents[0].mass, fx(0.0485));
    assert_eq!(game.agents[1].mass, fx(0.0515));
    let lost = (game.agents[0].mass.raw - 50_000).abs();
    let gained = (game.agents[1].mass.raw - 50_000).abs();
    assert_eq!(lost, gained);
    assert_eq!(game.agents[0].previous_mass, fx(0.05));
    assert_eq!(game.agents[0].other_collider_mass, fx(0.05));
    assert_eq!(game.agents[1].other_collider_mass, fx(0.05));
    // at rest they stay at rest, and nobody is moved
    assert_eq!(game.agents[0].last_position, v2(100.0, 100.0));
    assert_eq!(game.agents[0].position, v2(100.0, 100.0));
    assert_eq!(game.agents[1].position, v2(114.0, 100.0));
    // the radius follows the mass
    assert_eq!(game.agents[0].radius, fx(7.275));
    assert_eq!(game.agents[1].radius, fx(7.725));
    assert_eq!(game.agents[1].sensors.sight_range, fx(154.5));
}

#[test]
fn no_agent_takes_part_in_two_collisions_of_one_pass() {
    // three in a row, each touching the next
    let (mut game, kdtrees) = world(vec![
        agent(1, 100.0, 100.0, 0.05),
        agent(2, 112.0, 100.0, 0.05),
        agent(3, 123.0, 100.0, 0.05),
        agent(4, 134.0, 100.0, 0.05),
        agent(5, 500.0, 500.0, 0.05),
    ]);
    let contacts = detect_collisions(&game, &kdtrees);
    let mut named: Vec<u32> = Vec::new();
    for c in &contacts {
        named.push(c.info.agent_id1);
        named.push(c.info.agent_id2);
    }
    let mut unique = named.clone();
    unique.sort();
    unique.dedup();
    assert_eq!(unique.len(), named.len());
    // 1 finds 2 (12 away); 2 is taken; 3 finds 2 nearest (11 away, as is 4,
    // but 2 is earlier in the index): taken; 4 finds 3
    assert_eq!(named, vec![1, 2, 4, 3]);
    let events = collisions(&mut game, &kdtrees);
    assert_eq!(events.len(), 4);
    let subjects: Vec<u32> = events.iter().map(|e| e.agent_id).collect();
    assert_eq!(subjects, vec![1, 2, 4, 3]);
    assert!(!game.agents[4].just_collided);
    assert_eq!(game.agents[4].mass, fx(0.05));
}

#[test]
fn agents_apart_do_not_collide() {
    // 15 apart: the radii together are 15, and touching takes less
    let (mut game, kdtrees) = world(vec![agent(1, 0.0, 0.0, 0.05), agent(2, 15.0, 0.0, 0.05)]);
    assert!(collisions(&mut game, &kdtrees).is_empty());
    assert!(!game.agents[0].just_collided);
    assert_eq!(game.agents[0].mass, fx(0.05));
    assert!(candidate_contact(&game, &kdtrees, 0).is_none());
}

#[test]
fn only_sub_bodies_in_use_touch() {
    let mut a = agent(1, 0.0, 0.0, 0.05);
    let mut b = agent(2, 20.0, 0.0, 0.05);
    // sub-bodies at the offsets 0, 200 and 300 times the mass: 0, 10 and 15
    a.set_body_plan(&vec![v2(0.0, 0.0), v2(200.0, 0.0), v2(300.0, 0.0)]);
    b.set_body_plan(&vec![v2(0.0, 0.0), v2(-200.0, 0.0)]);
    // a's centre to b's second: 10 apart; a's second to b's centre: 10 apart;
    // the first pair that touches, in order, is (0, 1)
    assert!(!atoms_touching(&a, 0, &b, 0));
    assert!(atoms_touching(&a, 0, &b, 1));
    assert_eq!(narrow_phase(&a, &b), Some((0, 1)));
    b.body[1].is_used = false;
    assert_eq!(narrow_phase(&a, &b), Some((1, 0)));
    a.body[1].is_used = false;
    assert_eq!(narrow_phase(&a, &b), Some((2, 0)));
    a.body[2].is_used = false;
    assert_eq!(narrow_phase(&a, &b), None);
    let (game, kdtrees) = world(vec![a, b]);
    assert!(detect_collisions(&game, &kdtrees).is_empty());
}

#[test]
fn the_broad_phase_goes_by_the_radii() {
    // 7.5 + 7.5 = 15: nearer than that
    let fifteen_squared: u128 = 225_000_000_000_000;
    assert!(broad_phase_hit(fifteen_squared - 1, fx(7.5), fx(7.5)));
    assert!(!broad_phase_hit(fifteen_squared, fx(7.5), fx(7.5)));
    assert!(!broad_phase_hit(0, fx(0.0), fx(0.0)));
}

#[test]
fn agents_whose_centres_are_apart_do_not_collide_though_sub_bodies_reach_over() {
    // radii 7.5 each, centres 20 apart; the sub-bodies are only 10 apart
    let mut a = agent(10, 100.0, 100.0, 0.05);
    let mut b = agent(11, 120.0, 100.0, 0.05);
    a.set_body_plan(&vec![v2(1.0, 0.0)]);
    b.set_body_plan(&vec![v2(-1.0, 0.0)]);
    a.body[0].atom_pos = v2(5.0, 0.0);
    b.body[0].atom_pos = v2(-5.0, 0.0);
    assert!(atoms_touching(&a, 0, &b, 0));
    let (mut game, kdtrees) = world(vec![a.clone(), b.clone()]);
    assert!(candidate_contact(&game, &kdtrees, 0).is_none());
    assert!(candidate_contact(&game, &kdtrees, 1).is_none());
    let events = collisions(&mut game, &kdtrees);
    assert!(events.is_empty());
    for (after, before) in game.agents.iter().zip([a, b].iter()) {
        assert!(!after.just_collided);
        assert_eq!(after.position, before.position);
        assert_eq!(after.last_position, before.last_position);
        assert_eq!(after.other_collider_mass, before.other_collider_mass);
        assert_eq!(after.mass, before.mass);
        assert_eq!(after.radius, before.radius);
    }
}

#[test]
fn equal_masses_head_on_leave_with_their_velocities_negated() {
    let (v1, v2_) =
        elastic_velocities(fx(0.05), fx(0.05), v2(2.0, 0.0), v2(-2.0, 0.0), v2(0.0, 0.0), v2(10.0, 0.0));
    assert_eq!(v1, v2(-2.0, 0.0));
    assert_eq!(v2_, v2(2.0, 0.0));
    // along y, and the other way round
    let (w1, w2) =
        elastic_velocities(fx(0.2), fx(0.2), v2(0.0, -3.0), v2(0.0, 3.0), v2(5.0, 9.0), v2(5.0, 1.0));
    assert_eq!(w1, v2(0.0, 3.0));
    assert_eq!(w2, v2(0.0, -3.0));
    // along a slanted line of centres
    let (s1, s2) =
        elastic_velocities(fx(0.05), fx(0.05), v2(1.2, 1.6), v2(-1.2, -1.6), v2(0.0, 0.0), v2(3.0, 4.0));
    assert!((s1.x.raw + 1_200_000).abs() <= 10 && (s1.y.raw + 1_600_000).abs() <= 10);
    assert!((s2.x.raw - 1_200_000).abs() <= 10 && (s2.y.raw - 1_600_000).abs() <= 10);
}

#[test]
fn an_elastic_collision_keeps_what_goes_across_the_line_of_centres() {
    // all of the velocity is across the line: nothing changes
    let (v1, v2_) =
        elastic_velocities(fx(0.05), fx(0.05), v2(0.0, 5.0), v2(0.0, 0.0), v2(0.0, 0.0), v2(10.0, 0.0));
    assert_eq!(v1, v2(0.0, 5.0));
    assert_eq!(v2_, v2(0.0, 0.0));
    // a heavy one hits a light one at rest: v1 = u / 3, v2 = 4 u / 3
    let (h1, h2) =
        elastic_velocities(fx(0.1), fx(0.05), v2(3.0, 0.0), v2(0.0, 0.0), v2(0.0, 0.0), v2(10.0, 0.0));
    assert_eq!(h1.x.raw, 1_000_002);
    assert_eq!(h2.x.raw, 3_999_999);
    assert_eq!(h1.y.raw, 0);
    // momentum: 0.1 * 3 = 0.1 * 1.000002 + 0.05 * 3.999999, up to rounding
    let before = 100_000i64 * 3_000_000;
    let after = 100_000i64 * h1.x.raw + 50_000i64 * h2.x.raw;
    assert!((before - after).abs() < 1_000_000);
}

#[test]
fn bodies_at_one_place_collide_along_x_and_bodies_without_mass_not_at_all() {
    let (v1, v2_) =
        elastic_velocities(fx(0.05), fx(0.05), v2(2.0, 1.0), v2(0.0, 0.0), v2(5.0, 5.0), v2(5.0, 5.0));
    assert_eq!(v1, v2(0.0, 1.0));
    assert_eq!(v2_, v2(2.0, 0.0));
    let (z1, z2) =
        elastic_velocities(fx(0.0), fx(0.0), v2(2.0, 1.0), v2(-1.0, 0.0), v2(0.0, 0.0), v2(1.0, 0.0));
    assert_eq!(z1, v2(2.0, 1.0));
    assert_eq!(z2, v2(-1.0, 0.0));
}

#[test]
fn the_lighter_agent_hands_mass_to_the_heavier() {
    // what the first gains
    assert_eq!(mass_exchange(fx(0.1), fx(0.05)).raw, 1_500);
    assert_eq!(mass_exchange(fx(0.05), fx(0.1)).raw, -1_500);
    assert_eq!(mass_exchange(fx(0.05), fx(0.05)).raw, -1_500);
    let (mut game, kdtrees) = world(vec![agent(1, 0.0, 0.0, 0.1), agent(2, 20.0, 0.0, 0.05)]);
    let before = game.agents[0].mass.raw + game.agents[1].mass.raw;
    let events = collisions(&mut game, &kdtrees);
    assert_eq!(events.len(), 2);
    assert_eq!(game.agents[0].mass, fx(0.1015));
    assert_eq!(game.agents[1].mass, fx(0.0485));
    assert_eq!(game.agents[0].mass.raw + game.agents[1].mass.raw, before);
}

#[test]
fn a_collision_sets_the_last_position_back_by_the_new_velocity() {
    let mut a = agent(1, 0.0, 0.0, 0.05);
    let mut b = agent(2, 14.0, 0.0, 0.05);
    a.velocity = v2(2.0, 0.0);
    b.velocity = v2(-2.0, 0.0);
    let (mut game, kdtrees) = world(vec![a, b]);
    let contacts = detect_collisions(&game, &kdtrees);
    assert_eq!(contacts.len(), 1);
    assert_eq!(contacts[0].first, 0);
    assert_eq!(contacts[0].second, 1);
    assert_eq!(contacts[0].info.velocity1, v2(-2.0, 0.0));
    assert_eq!(contacts[0].info.velocity2, v2(2.0, 0.0));
    assert_eq!(contacts[0].info.atom_index1, 0);
    assert_eq!(contacts[0].info.other_collision_mass1, fx(0.05));
    collisions(&mut game, &kdtrees);
    // last position = position - velocity * 4
    assert_eq!(game.agents[0].last_position, v2(8.0, 0.0));
    assert_eq!(game.agents[1].last_position, v2(6.0, 0.0));
    assert_eq!(game.agents[0].position, v2(0.0, 0.0));
}

#[test]
fn a_guardian_is_reported_as_one() {
    let mut g = agent(20, 0.0, 0.0, 0.15);
    g.is_guardian = true;
    let (mut game, kdtrees) = world(vec![agent(1, 10.0, 0.0, 0.05), g]);
    let events = collisions(&mut game, &kdtrees);
    assert_eq!(
        events,
        vec![
            CollisionEvent { agent_id: 1, other_agent_id: 20, other_is_guardian: true },
            CollisionEvent { agent_id: 20, other_agent_id: 1, other_is_guardian: false },
        ]
    );
}

#[test]
fn a_lost_agent_and_a_neighbour_that_is_gone_collide_with_nobody() {
    let mut lost = agent(1, 0.0, 0.0, 0.05);
    let (mut game, mut kdtrees) = world(vec![agent(2, 1.0, 0.0, 0.05), agent(3, 2.0, 0.0, 0.05)]);
    kdtrees.populate(&game);
    // the index still has agent 3, the world no more
    game.agents.remove(1);
    lost.position = Vec2::new(Fixed::new(LIMIT), fx(0.0));
    game.agents.push(lost);
    assert!(collisions(&mut game, &kdtrees).is_empty());
}

#[test]
fn twins_at_one_place_collide_with_each_other_and_not_with_themselves() {
    let (mut game, kdtrees) = world(vec![agent(1, 5.0, 5.0, 0.05), agent(2, 5.0, 5.0, 0.05)]);
    let events = collisions(&mut game, &kdtrees);
    assert_eq!(events.len(), 2);
    assert_eq!(events[0].agent_id, 1);
    assert_eq!(events[0].other_agent_id, 2);
}

#[test]
fn a_head_on_collision_along_any_line_nearly_negates_the_velocities() {
    for (dx, dy) in [(10.0, 7.0), (-3.0, 11.0), (0.5, -0.25), (123.0, 1.0)] {
        let x1 = v2(40.0, 60.0);
        let x2 = v2(40.0 + dx, 60.0 + dy);
        let line = x1.minus(x2).normalize();
        for speed in [2.0, -0.75, 30.0] {
            let u1 = line.scale(fx(speed));
            let u2 = line.scale(fx(-speed));
            assert_eq!(u2, u1.neg());
            let (w1, w2) = elastic_velocities(fx(0.05), fx(0.05), u1, u2, x1, x2);
            // nine raw units for the roundings, and the rest for the length of the line
            let slack = 9 + (speed.abs() * 20.0) as i64;
            assert!((w1.x.raw + u1.x.raw).abs() <= slack);
            assert!((w1.y.raw + u1.y.raw).abs() <= slack);
            assert!((w2.x.raw + u2.x.raw).abs() <= slack);
            assert!((w2.y.raw + u2.y.raw).abs() <= slack);
        }
    }
}

#[test]
fn a_pass_of_collisions_keeps_the_mass_of_the_world() {
    // two pairs that collide, of unequal and of equal masses, and one agent alone
    let (mut game, kdtrees) = world(vec![
        agent(1, 0.0, 0.0, 0.1),
        agent(2, 20.0, 0.0, 0.05),
        agent(3, 500.0, 500.0, 0.07),
        agent(4, 300.0, 0.0, 0.033333),
        agent(5, 300.0, 9.0, 0.033333),
    ]);
    let before: Vec<i64> = game.agents.iter().map(|a| a.mass.raw).collect();
    let events = collisions(&mut game, &kdtrees);
    assert_eq!(events.len(), 4);
    let after: Vec<i64> = game.agents.iter().map(|a| a.mass.raw).collect();
    assert_eq!(after[0] + after[1], before[0] + before[1]);
    assert_eq!(after[3] + after[4], before[3] + before[4]);
    assert_eq!(after[2], before[2]);
    assert_eq!(after.iter().sum::<i64>(), before.iter().sum::<i64>());
    // and mass did change hands
    assert!(after[0] > before[0] && after[1] < before[1]);
    assert!(after[3] != before[3]);
}
