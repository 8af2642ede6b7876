use rise_above::agent::{
    find_position, find_sight, Agent, AgentSight, Feeling, FoodSight, Goal, Race, RaceBottom,
    SocialAttributes,
};
use rise_above::fixed::{Fixed, LIMIT};
use rise_above::game::{
    entries_of, find_agent, forget, forget_drawn, see, update_agent_kdtree, Food, Game,
    GameStage, KdTrees, LEVEL_HEIGHT, LEVEL_WIDTH,
};
use rise_above::spatial::IndexEntry;
use rise_above::vec2::Vec2;
use rise_above::worldgen::RaceAttributes;

fn fx(v: f64) -> Fixed {
    Fixed::new((v * 1_000_000.0).round() as i64)
}

fn v2(x: f64, y: f64) -> Vec2 {
    Vec2::new(fx(x), fx(y))
}

fn agent(id: u32, x: f64, y: f64, mass: f64) -> Agent {
    let attributes = RaceAttributes {
        social_attributes: SocialAttributes {
            aggressivity: fx(0.5),
            altruism: fx(0.5),
            collectioneur: fx(0.5),
        },
        memory_time: fx(2.0),
    };
    let mut a = Agent::spawn(
        id,
        v2(x, y),
        fx(mass),
        Race::Bottom(RaceBottom::Ameoba),
        attributes,
        fx(0.0),
        false,
        v2(0.0, 0.0),
    );
    a.look_at_dir = v2(1.0, 0.0);
    a
}

fn world(agents: Vec<Agent>) -> (Game, KdTrees) {
    let game =
        Game { time: fx(0.0), game_stage: GameStage::Bottom, agents, foods: vec![], won: false };
    let mut kdtrees = KdTrees::new();
    kdtrees.populate(&game);
    (game, kdtrees)
}

fn sight(id: u32, time: f64) -> AgentSight {
    AgentSight {
        time_of_last_sight: fx(time),
        distance: fx(1.0),
        id,
        position: v2(0.0, 0.0),
        last_position: v2(0.0, 0.0),
        speed_along_itself: fx(0.0),
        feeling: Feeling::Neutral,
        mass: fx(0.05),
        speed: fx(0.0),
        look_at_angle: fx(0.0),
    }
}

#[test]
fn a_spawned_agent_has_the_radius_and_range_of_its_mass() {
    let a = agent(3, 10.0, 20.0, 0.05);
    // radius = mass * 1000 * 0.15, range of sight = radius * 20
    assert_eq!(a.radius, fx(7.5));
    assert_eq!(a.sensors.sight_range, fx(150.0));
    assert_eq!(a.sensors.hearing_range, fx(150.0));
    assert_eq!(a.last_position, a.position);
    assert_eq!(a.energy, fx(1.0));
    assert_eq!(a.goal, Goal::Rest);
    assert!(a.sensors.agent_sight.is_empty());
}

#[test]
fn mass_properties_follow_a_new_mass() {
    let mut a = agent(3, 10.0, 20.0, 0.05);
    a.mass = fx(0.1);
    a.update_mass_properties();
    assert_eq!(a.radius, fx(15.0));
    assert_eq!(a.sensors.sight_range, fx(300.0));
    assert_eq!(a.sensors.hearing_range, fx(300.0));
    assert_eq!(a.mass, fx(0.1));
}

#[test]
fn remembering_replaces_the_record_of_the_same_agent() {
    let mut a = agent(1, 0.0, 0.0, 0.05);
    a.remember(sight(7, 0.0));
    a.remember(sight(8, 0.5));
    a.remember(sight(7, 1.0));
    assert_eq!(a.sensors.agent_sight, vec![sight(7, 1.0), sight(8, 0.5)]);
    assert_eq!(find_sight(&a.sensors.agent_sight, 8), Some(1));
    assert_eq!(find_sight(&a.sensors.agent_sight, 9), None);
}

#[test]
fn a_sighting_notes_the_other_agent_as_it_is() {
    let mut me = agent(1, 0.0, 0.0, 0.05);
    let mut other = agent(2, 3.0, 4.0, 0.1);
    other.speed = fx(2.0);
    // headed straight for me: (-0.6, -0.8)
    other.look_at_dir = v2(-0.6, -0.8);
    other.look_at_angle = fx(4.068887);
    other.social.feeling = Feeling::Angry;
    // momentum (-0.6, -0.8) * 2 * 0.1 along (0, 0) - (3, 4): 0.36 + 0.64
    assert_eq!(me.compute_agent_charging_momentum(&other), fx(1.0));
    me.update_agent_sight(fx(12.5), fx(5.0), &other);
    assert_eq!(
        me.sensors.agent_sight,
        vec![AgentSight {
            time_of_last_sight: fx(12.5),
            distance: fx(5.0),
            id: 2,
            position: v2(3.0, 4.0),
            last_position: v2(3.0, 4.0),
            speed_along_itself: fx(1.0),
            feeling: Feeling::Angry,
            mass: fx(0.1),
            speed: fx(2.0),
            look_at_angle: fx(4.068887),
        }]
    );
}

#[test]
fn memory_of_two_seconds_keeps_a_record_at_1_9_and_drops_it_at_2_1() {
    let mut a = agent(1, 0.0, 0.0, 0.05);
    a.memory_time = fx(2.0);
    a.remember(sight(7, 0.0));
    a.forget_agents(fx(1.9));
    assert_eq!(a.sensors.agent_sight, vec![sight(7, 0.0)]);
    a.forget_agents(fx(2.1));
    assert!(a.sensors.agent_sight.is_empty());
}

#[test]
fn a_record_is_dropped_only_when_older_than_the_memory_time() {
    let mut a = agent(1, 0.0, 0.0, 0.05);
    a.memory_time = fx(2.0);
    a.remember(sight(1, 0.0));
    a.remember(sight(2, 1.0));
    a.remember(sight(3, 1.000001));
    a.remember(sight(4, 3.0));
    // at 3.0: ages 3.0, 2.0, 1.999999, 0.0; only an age above 2.0 goes
    a.forget_agents(fx(3.0));
    assert_eq!(a.sensors.agent_sight, vec![sight(2, 1.0), sight(3, 1.000001), sight(4, 3.0)]);
}

#[test]
fn a_record_made_this_tick_outlives_the_forgetting_of_this_tick() {
    let mut a = agent(1, 0.0, 0.0, 0.05);
    a.memory_time = fx(0.0);
    a.remember(sight(7, 5.0));
    a.forget_agents(fx(5.0));
    assert_eq!(a.sensors.agent_sight, vec![sight(7, 5.0)]);
}

#[test]
fn agents_see_the_others_within_their_range_and_not_themselves() {
    // range of sight of a mass of 0.05: 150
    let (mut game, kdtrees) = world(vec![
        agent(1, 0.0, 0.0, 0.05),
        agent(2, 100.0, 0.0, 0.05),
        agent(3, 0.0, 150.0, 0.05),
        agent(4, 0.0, 151.0, 0.05),
    ]);
    see(&mut game, &kdtrees, fx(3.0));
    let seen: Vec<u32> = game.agents[0].sensors.agent_sight.iter().map(|s| s.id).collect();
    assert_eq!(seen, vec![2, 3]);
    let record = game.agents[0].sensors.agent_sight[0];
    assert_eq!(record.distance, fx(100.0));
    assert_eq!(record.time_of_last_sight, fx(3.0));
    assert_eq!(record.position, v2(100.0, 0.0));
    let seen_by_4: Vec<u32> = game.agents[3].sensors.agent_sight.iter().map(|s| s.id).collect();
    assert_eq!(seen_by_4, vec![3]);
    // seeing again later refreshes the records in place
    see(&mut game, &kdtrees, fx(4.0));
    assert_eq!(game.agents[0].sensors.agent_sight.len(), 2);
    assert_eq!(game.agents[0].sensors.agent_sight[1].time_of_last_sight, fx(4.0));
}

#[test]
fn an_agent_in_the_index_but_not_in_the_world_is_not_seen() {
    let (mut game, kdtrees) = world(vec![agent(1, 0.0, 0.0, 0.05), agent(2, 10.0, 0.0, 0.05)]);
    game.agents.remove(1);
    see(&mut game, &kdtrees, fx(1.0));
    assert!(game.agents[0].sensors.agent_sight.is_empty());
}

#[test]
fn forgetting_goes_by_the_draw_of_each_agent() {
    let mut first = agent(1, 0.0, 0.0, 0.05);
    first.remember(sight(9, 0.0));
    let mut second = agent(2, 0.0, 0.0, 0.05);
    second.remember(sight(9, 0.0));
    let (mut game, _) = world(vec![first, second]);
    // one in ten: a draw below 0.1 goes through the memory
    forget_drawn(&mut game, fx(10.0), &vec![fx(0.099999), fx(0.1)]);
    assert!(game.agents[0].sensors.agent_sight.is_empty());
    assert_eq!(game.agents[1].sensors.agent_sight.len(), 1);
}

#[test]
fn forgetting_by_chance_never_drops_a_fresh_record() {
    let mut a = agent(1, 0.0, 0.0, 0.05);
    a.remember(sight(9, 10.0));
    let (mut game, _) = world(vec![a]);
    for _ in 0..50 {
        forget(&mut game, fx(10.0));
    }
    assert_eq!(game.agents[0].sensors.agent_sight.len(), 1);
}

#[test]
fn forgetting_by_chance_drops_an_old_record_sooner_or_later() {
    let mut a = agent(1, 0.0, 0.0, 0.05);
    a.remember(sight(9, 0.0));
    let (mut game, _) = world(vec![a]);
    for _ in 0..2000 {
        forget(&mut game, fx(10.0));
    }
    assert!(game.agents[0].sensors.agent_sight.is_empty());
}

#[test]
fn lost_agents_are_put_back_and_the_index_holds_every_agent_once() {
    let mut lost = agent(2, 0.0, 0.0, 0.05);
    lost.position = Vec2::new(fx(5.0), Fixed::new(LIMIT));
    let (mut game, mut kdtrees) = world(vec![agent(1, 1.0, 1.0, 0.05), lost]);
    assert_eq!(kdtrees.agent_kdtree.size(), 1);
    update_agent_kdtree(&mut kdtrees, &mut game);
    assert_eq!(game.agents[0].position, v2(1.0, 1.0));
    let p = game.agents[1].position;
    assert!(0 <= p.x.raw && p.x.raw < LEVEL_WIDTH);
    assert!(0 <= p.y.raw && p.y.raw < LEVEL_HEIGHT);
    assert_eq!(kdtrees.agent_kdtree.entries, entries_of(&game.agents));
    assert_eq!(kdtrees.agent_kdtree.size(), 2);
    // the world can build an index of its agents itself
    game.agents.pop();
    game.update_agent_kdtree(&mut kdtrees.agent_kdtree);
    assert_eq!(kdtrees.agent_kdtree.entries, entries_of(&game.agents));
    assert_eq!(kdtrees.agent_kdtree.size(), 1);
}

#[test]
fn agents_are_found_by_their_id() {
    let (game, _) = world(vec![agent(5, 0.0, 0.0, 0.05), agent(6, 1.0, 0.0, 0.05)]);
    assert_eq!(find_agent(&game.agents, 6), Some(1));
    assert_eq!(find_agent(&game.agents, 7), None);
    assert_eq!(game.agent(5).map(|a| a.id), Some(5));
    assert!(game.agent(9).is_none());
    let entries = vec![
        IndexEntry { id: 5, position: v2(1.0, 2.0) },
        IndexEntry { id: 5, position: v2(3.0, 4.0) },
    ];
    assert_eq!(find_position(&entries, 5), Some(v2(1.0, 2.0)));
    assert_eq!(find_position(&entries, 6), None);
}

#[test]
fn a_goal_becomes_a_target() {
    let positions = vec![
        IndexEntry { id: 1, position: v2(0.0, 0.0) },
        IndexEntry { id: 2, position: v2(30.0, 40.0) },
    ];
    let jitter = v2(0.05, -0.05);
    let mut a = agent(1, 10.0, 10.0, 0.05);
    a.target_position = v2(-1.0, -1.0);

    a.goal = Goal::Rest;
    a.act(&positions, jitter);
    assert_eq!(a.target_position, v2(-1.0, -1.0));

    a.goal = Goal::GoTo(v2(7.0, 8.0));
    a.act(&positions, jitter);
    assert_eq!(a.target_position, v2(7.0, 8.0));

    a.goal = Goal::GoToAgent(2);
    a.act(&positions, jitter);
    assert_eq!(a.target_position, v2(30.0, 40.0));

    // an agent that is gone leaves the target where it is
    a.goal = Goal::Bully(99);
    a.act(&positions, jitter);
    assert_eq!(a.target_position, v2(30.0, 40.0));

    a.goal = Goal::Bully(1);
    a.act(&positions, jitter);
    assert_eq!(a.target_position, v2(0.0, 0.0));

    a.goal = Goal::Food(FoodSight {
        time_of_last_sight: fx(0.0),
        distance: fx(1.0),
        position: v2(2.0, 3.0),
        energy: fx(0.01),
        mass: fx(0.01),
        id: 4,
    });
    a.act(&positions, jitter);
    assert_eq!(a.target_position, v2(2.0, 3.0));

    // away from (7, 6): along (0.6, 0.8), by mass * 100 = 5
    a.goal = Goal::Flee(v2(7.0, 6.0));
    a.act(&positions, jitter);
    assert_eq!(a.target_position, v2(13.0, 14.0));

    // fleeing from where it stands: along x
    a.goal = Goal::Flee(v2(10.0, 10.0));
    a.act(&positions, jitter);
    assert_eq!(a.target_position, v2(15.0, 10.0));

    // a search: one step ahead, plus the jitter
    a.goal = Goal::SearchForFood;
    a.act(&positions, jitter);
    assert_eq!(a.target_position, v2(11.05, 9.95));
    assert_eq!(a.position, v2(10.0, 10.0));
}

#[test]
fn directions_of_an_agent() {
    let mut a = agent(1, 10.0, 10.0, 0.05);
    a.look_at_dir = v2(0.6, 0.8);
    a.speed = fx(2.0);
    a.compute_self_velocity();
    assert_eq!(a.velocity, v2(1.2, 1.6));
    assert_eq!(a.compute_look_at_dir(), v2(0.6, 0.8));
    assert_eq!(a.compute_left_and_right_dir(), (v2(-0.8, 0.6), v2(0.8, -0.6)));
    // at rest: no direction of travel
    assert_eq!(a.forward_dir(), v2(0.0, 0.0));
    a.last_position = v2(10.0, 13.0);
    assert_eq!(a.forward_dir(), v2(0.0, -1.0));
}

#[test]
fn a_body_plan_gives_sub_bodies_scaled_by_the_mass() {
    let mut a = agent(1, 0.0, 0.0, 0.05);
    a.set_body_plan(&vec![v2(100.0, 0.0), v2(0.0, 489.999999), v2(490.0, 0.0), v2(400.0, 400.0)]);
    assert_eq!(a.body.len(), 4);
    assert_eq!(a.body[0].atom_pos, v2(5.0, 0.0));
    assert!(a.body[0].is_used);
    assert!(a.body[1].is_used);
    // at the limit of the reach and beyond it: not in use
    assert!(!a.body[2].is_used);
    assert!(!a.body[3].is_used);
    // the side of an atom is 0.15 * mass * 1000 = 7.5; its size the diagonal
    assert_eq!(a.body[0].atom_size.raw, 10_606_601);
    assert_eq!(a.body[0].entity, None);
    assert_eq!(a.body[3].atom_pos, v2(20.0, 20.0));
}

#[test]
fn reacting_to_a_hit_sets_the_goal() {
    let mut a = agent(1, 0.0, 0.0, 0.05);
    a.react_to_collision(9, v2(3.0, 3.0), fx(7.0), true);
    assert_eq!(a.goal, Goal::Flee(v2(3.0, 3.0)));
    assert_eq!(a.goal_time, fx(7.0));
    a.react_to_collision(9, v2(3.0, 3.0), fx(8.0), false);
    assert_eq!(a.goal, Goal::Bully(9));
    assert_eq!(a.goal_time, fx(8.0));
}

#[test]
fn food_seen_again_is_brought_up_to_date_and_old_food_is_forgotten() {
    let mut a = agent(1, 0.0, 0.0, 0.05);
    a.memory_time = fx(2.0);
    let piece = |id: u32, position: Vec2, energy: f64, mass: f64| Food {
        position,
        energy: fx(energy),
        mass: fx(mass),
        id,
        acc: v2(0.0, 0.0),
    };
    a.update_food_sight(fx(1.0), fx(5.0), &piece(30, v2(3.0, 4.0), 0.01, 0.02));
    a.update_food_sight(fx(2.0), fx(6.0), &piece(31, v2(6.0, 0.0), 0.01, 0.02));
    // seen again: the time and the distance are new, the rest stays
    a.update_food_sight(fx(3.0), fx(1.0), &piece(30, v2(9.0, 9.0), 0.5, 0.5));
    assert_eq!(
        a.sensors.food_sight,
        vec![
            FoodSight {
                time_of_last_sight: fx(3.0),
                distance: fx(1.0),
                position: v2(3.0, 4.0),
                energy: fx(0.01),
                mass: fx(0.02),
                id: 30,
            },
            FoodSight {
                time_of_last_sight: fx(2.0),
                distance: fx(6.0),
                position: v2(6.0, 0.0),
                energy: fx(0.01),
                mass: fx(0.02),
                id: 31,
            },
        ]
    );
    // food is remembered for half the memory time: ages 0 and 1 at 3.0
    a.forget_food(fx(3.0));
    assert_eq!(a.sensors.food_sight.len(), 2);
    a.forget_food(fx(3.000001));
    assert_eq!(a.sensors.food_sight.len(), 1);
    assert_eq!(a.sensors.food_sight[0].id, 30);
    a.forget_food(fx(4.000001));
    assert!(a.sensors.food_sight.is_empty());
    assert!(a.sensors.agent_sight.is_empty());
}
