use rise_above::agent::{Agent, AgentSight, Feeling, Goal, Race, RaceBottom, SocialAttributes};
use rise_above::decision::{
    agent_action, agent_action_with, agent_decisions, has_seen, random_jitters, random_whims,
    send_guardians, Whim, JITTER,
};
use rise_above::fixed::Fixed;
use rise_above::game::{Game, GameStage};
use rise_above::vec2::Vec2;
use rise_above::worldgen::RaceAttributes;

fn fx(v: f64) -> Fixed {
    Fixed::new((v * 1_000_000.0).round() as i64)
}

fn v2(x: f64, y: f64) -> Vec2 {
    Vec2::new(fx(x), fx(y))
}

fn agent(id: u32, x: f64, y: f64, mass: f64) -> Agent {
    let attributes = RaceAttributes {
        social_attributes: SocialAttributes {
            aggressivity: fx(0.5),
            altruism: fx(0.5),
            collectioneur: fx(0.5),
        },
        memory_time: fx(2.0),
    };
    let mut a = Agent::spawn(
        id,
        v2(x, y),
        fx(mass),
        Race::Bottom(RaceBottom::Ameoba),
        attributes,
        fx(0.0),
        false,
        v2(0.0, 0.0),
    );
    a.look_at_dir = v2(1.0, 0.0);
    a
}

fn sight(id: u32) -> AgentSight {
    AgentSight {
        time_of_last_sight: fx(0.0),
        distance: fx(1.0),
        id,
        position: v2(0.0, 0.0),
        last_position: v2(0.0, 0.0),
        speed_along_itself: fx(0.0),
        feeling: Feeling::Neutral,
        mass: fx(0.05),
        speed: fx(0.0),
        look_at_angle: fx(0.0),
    }
}

fn whim(consider: f64, bully: f64) -> Whim {
    Whim { consider: fx(consider), bully: fx(bully) }
}

fn world(agents: Vec<Agent>) -> Game {
    Game { time: fx(0.0), game_stage: GameStage::Bottom, agents, foods: vec![], won: false }
}

#[test]
fn a_goal_younger_than_the_memory_is_kept() {
    let mut a = agent(5, 0.0, 0.0, 0.05);
    a.remember(sight(7));
    a.goal_time = fx(1.0);
    a.memory_time = fx(2.0);
    // 3.0 - 1.0 is not more than 2.0
    a.decide(fx(3.0), &vec![whim(0.0, 0.0)]);
    assert_eq!(a.goal, Goal::Rest);
    assert_eq!(a.goal_time, fx(1.0));
    a.decide(fx(3.000001), &vec![whim(0.0, 0.0)]);
    assert_eq!(a.goal, Goal::Bully(7));
    assert_eq!(a.goal_time, fx(3.000001));
}

#[test]
fn a_guardian_that_has_seen_the_player_goes_after_it() {
    let mut g = agent(20, 0.0, 0.0, 0.15);
    g.is_guardian = true;
    g.remember(sight(7));
    g.remember(sight(1));
    // whatever the draws
    g.decide(fx(10.0), &vec![whim(0.0, 0.0), whim(0.9, 0.9)]);
    assert_eq!(g.goal, Goal::Bully(1));
    assert_eq!(g.goal_time, fx(10.0));
    assert!(has_seen(&g, 1));
    assert!(!has_seen(&g, 2));
    // one that is no guardian goes by its draws
    let mut a = agent(5, 0.0, 0.0, 0.05);
    a.remember(sight(7));
    a.remember(sight(1));
    a.decide(fx(10.0), &vec![whim(0.9, 0.9), whim(0.9, 0.9)]);
    assert_eq!(a.goal, Goal::Rest);
    assert_eq!(a.goal_time, fx(0.0));
}

#[test]
fn an_agent_goes_after_the_first_one_that_its_draws_pick() {
    let mut a = agent(5, 0.0, 0.0, 0.05);
    a.remember(sight(7));
    a.remember(sight(8));
    a.remember(sight(9));
    a.last_agent_hit = 8;
    // 7: not considered (0.1 is not below 0.1); 8: hit last; 9: picked
    a.decide(fx(10.0), &vec![whim(0.1, 0.0), whim(0.0, 0.0), whim(0.099999, 0.199999)]);
    assert_eq!(a.goal, Goal::Bully(9));
    assert_eq!(a.goal_time, fx(10.0));
    // considered but not bullied (0.2 is not below 0.2): the goal stays
    let mut b = agent(6, 0.0, 0.0, 0.05);
    b.remember(sight(7));
    b.decide(fx(10.0), &vec![whim(0.0, 0.2)]);
    assert_eq!(b.goal, Goal::Rest);
    // no draw, no pick
    b.decide(fx(10.0), &vec![]);
    assert_eq!(b.goal, Goal::Rest);
}

#[test]
fn decisions_by_chance_keep_the_goal_or_go_after_someone_seen() {
    let mut a = agent(5, 0.0, 0.0, 0.05);
    a.remember(sight(7));
    a.remember(sight(8));
    a.last_agent_hit = 8;
    let mut g = agent(20, 0.0, 0.0, 0.15);
    g.is_guardian = true;
    g.remember(sight(1));
    let mut game = world(vec![a, g]);
    let mut picked = false;
    for k in 0..2000 {
        agent_decisions(&mut game, fx(10.0 + k as f64 * 3.0));
        let goal = game.agents[0].goal;
        assert!(goal == Goal::Rest || goal == Goal::Bully(7));
        picked = picked || goal == Goal::Bully(7);
        assert_eq!(game.agents[1].goal, Goal::Bully(1));
    }
    // two chances in a hundred, two thousand times
    assert!(picked);
    assert_eq!(random_whims(3).len(), 3);
}

#[test]
fn the_guardians_are_sent_by_the_height_of_the_player() {
    let mut agents = vec![agent(1, 2500.0, 3500.0, 0.05)];
    for (k, id) in [19u32, 20, 34, 35, 39, 40, 5000].iter().enumerate() {
        let mut a = agent(*id, 0.0, 0.0, 0.05);
        a.guardian_pos = v2(k as f64, 1.0);
        agents.push(a);
    }
    let mut game = world(agents);
    // before time has begun nothing is done
    send_guardians(&mut game, fx(0.0));
    assert!(game.agents.iter().all(|a| a.goal == Goal::Rest));
    // the player in the lower half (3500 is not above half of 7000)
    send_guardians(&mut game, fx(2.0));
    let goals: Vec<Goal> = game.agents.iter().map(|a| a.goal).collect();
    assert_eq!(
        goals,
        vec![
            Goal::Bully(1),
            Goal::Bully(1),
            Goal::GoTo(v2(1.0, 1.0)),
            Goal::GoTo(v2(2.0, 1.0)),
            Goal::Bully(1),
            Goal::Bully(1),
            Goal::Rest,
            Goal::Rest,
        ]
    );
    assert_eq!(game.agents[2].goal_time, fx(2.0));
    assert_eq!(game.agents[6].goal_time, fx(0.0));
    // the player in the upper half: every guardian goes after it
    for a in game.agents.iter_mut() {
        a.goal = Goal::Rest;
    }
    game.agents[0].position = v2(2500.0, 3500.000001);
    send_guardians(&mut game, fx(3.0));
    let goals: Vec<Goal> = game.agents.iter().map(|a| a.goal).collect();
    assert_eq!(
        goals,
        vec![
            Goal::Rest,
            Goal::Rest,
            Goal::Bully(1),
            Goal::Bully(1),
            Goal::Bully(1),
            Goal::Bully(1),
            Goal::Rest,
            Goal::Rest,
        ]
    );
}

#[test]
fn without_the_player_no_guardian_is_sent() {
    let mut game = world(vec![agent(20, 0.0, 0.0, 0.05), agent(35, 0.0, 0.0, 0.05)]);
    send_guardians(&mut game, fx(5.0));
    assert!(game.agents.iter().all(|a| a.goal == Goal::Rest));
}

#[test]
fn all_agents_act_on_where_the_others_are() {
    let mut a = agent(2, 0.0, 0.0, 0.05);
    a.goal = Goal::GoToAgent(3);
    let mut b = agent(3, 30.0, 40.0, 0.05);
    b.goal = Goal::Bully(2);
    let mut c = agent(4, 5.0, 5.0, 0.05);
    c.goal = Goal::SearchForAFight;
    let mut d = agent(5, 9.0, 9.0, 0.05);
    d.goal = Goal::Bully(77);
    d.target_position = v2(1.0, 2.0);
    let mut game = world(vec![a, b, c, d]);
    let jitters = vec![v2(0.0, 0.0), v2(0.0, 0.0), v2(0.1, -0.1), v2(0.0, 0.0)];
    agent_action_with(&mut game, &jitters);
    assert_eq!(game.agents[0].target_position, v2(30.0, 40.0));
    assert_eq!(game.agents[1].target_position, v2(0.0, 0.0));
    assert_eq!(game.agents[2].target_position, v2(6.1, 4.9));
    assert_eq!(game.agents[3].target_position, v2(1.0, 2.0));
}

#[test]
fn a_search_by_chance_stays_within_its_jitter() {
    let mut c = agent(4, 5.0, 5.0, 0.05);
    c.goal = Goal::SearchForFood;
    let mut b = agent(3, 30.0, 40.0, 0.05);
    b.goal = Goal::GoTo(v2(1.0, 1.0));
    let mut game = world(vec![c, b]);
    let mut seen = std::collections::HashSet::new();
    for _ in 0..200 {
        agent_action(&mut game);
        let t = game.agents[0].target_position;
        assert!(5_900_000 <= t.x.raw && t.x.raw < 6_100_000);
        assert!(4_900_000 <= t.y.raw && t.y.raw < 5_100_000);
        seen.insert((t.x.raw, t.y.raw));
        assert_eq!(game.agents[1].target_position, v2(1.0, 1.0));
    }
    // the draws differ
    assert!(seen.len() > 1);
    for j in random_jitters(50) {
        assert!(-JITTER <= j.x.raw && j.x.raw < JITTER);
        assert!(-JITTER <= j.y.raw && j.y.raw < JITTER);
    }
}

#[test]
fn in_the_pass_a_young_goal_stays_and_a_guardian_takes_its_goal_anew() {
    // a goal no older than the memory: kept, whatever is drawn
    let mut young = agent(5, 0.0, 0.0, 0.05);
    young.remember(sight(7));
    young.remember(sight(8));
    young.goal = Goal::GoTo(v2(3.0, 4.0));
    young.goal_time = fx(8.0);
    // a guardian that is after the player already: after it from now on
    let mut guardian = agent(20, 50.0, 0.0, 0.15);
    guardian.is_guardian = true;
    guardian.remember(sight(1));
    guardian.goal = Goal::Bully(1);
    guardian.goal_time = fx(1.0);
    for _ in 0..50 {
        let mut game = world(vec![young.clone(), guardian.clone()]);
        agent_decisions(&mut game, fx(10.0));
        assert_eq!(game.agents[0].goal, Goal::GoTo(v2(3.0, 4.0)));
        assert_eq!(game.agents[0].goal_time, fx(8.0));
        assert_eq!(game.agents[1].goal, Goal::Bully(1));
        assert_eq!(game.agents[1].goal_time, fx(10.0));
        assert_eq!(game.agents[0].sensors.agent_sight, young.sensors.agent_sight);
        assert_eq!(game.agents[0].position, young.position);
        assert_eq!(game.agents[0].mass, young.mass);
    }
}

#[test]
fn every_draw_of_a_whim_is_a_share_of_one() {
    let whims = random_whims(200);
    assert_eq!(whims.len(), 200);
    for w in &whims {
        assert!(0 <= w.consider.raw && w.consider.raw < 1_000_000);
        assert!(0 <= w.bully.raw && w.bully.raw < 1_000_000);
    }
    assert!(random_whims(0).is_empty());
}
