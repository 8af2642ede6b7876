use rise_above::agent::{
    Agent, Feeling, Goal, Race, RaceBottom, RaceMid, RaceTop, SocialAttributes, Turning,
};
use rise_above::fixed::Fixed;
use rise_above::game::{
    find_agent, Game, GameStage, LEVEL_HEIGHT, LEVEL_WIDTH, NUM_AGENTS, NUM_FOODS,
};
use rise_above::random::{random_between, random_id, random_unit, random_units};
use rise_above::tick::{STARTING_DEPTH, STARTING_MASS};
use rise_above::vec2::Vec2;
use rise_above::worldgen::{guardian_post, RaceAttributes, RaceRanges, Span};

fn fx(v: f64) -> Fixed {
    Fixed::new((v * 1_000_000.0).round() as i64)
}

fn v2(x: f64, y: f64) -> Vec2 {
    Vec2::new(fx(x), fx(y))
}

fn span(low: f64, high: f64) -> Span {
    Span { low: fx(low), high: fx(high) }
}

fn within(s: Span, v: Fixed) -> bool {
    s.low.raw <= v.raw && v.raw < s.high.raw
}

#[test]
fn draws_lie_in_their_range_and_differ() {
    let mut units = std::collections::HashSet::new();
    let mut between = std::collections::HashSet::new();
    let mut ids = std::collections::HashSet::new();
    for _ in 0..200 {
        let u = random_unit();
        assert!(0 <= u.raw && u.raw < 1_000_000);
        units.insert(u.raw);
        let b = random_between(fx(-3.0), fx(5.0));
        assert!(-3_000_000 <= b.raw && b.raw < 5_000_000);
        between.insert(b.raw);
        ids.insert(random_id());
    }
    assert!(units.len() > 1);
    assert!(between.len() > 1);
    assert!(ids.len() > 1);
    // an empty range gives its low end
    assert_eq!(random_between(fx(2.0), fx(2.0)), fx(2.0));
    assert_eq!(random_between(fx(2.0), fx(1.0)), fx(2.0));
    assert_eq!(span(4.0, 4.0).draw(), fx(4.0));
    let many = random_units(64);
    assert_eq!(many.len(), 64);
    assert!(many.iter().all(|u| 0 <= u.raw && u.raw < 1_000_000));
    assert!(random_units(0).is_empty());
}

#[test]
fn the_ranges_of_the_races() {
    assert_eq!(
        Race::Bottom(RaceBottom::Ameoba).attribute_ranges(),
        RaceRanges {
            aggressivity: span(0.0, 0.4),
            altruism: span(0.0, 0.4),
            collectioneur: span(0.0, 0.5),
            memory_time: span(0.0, 0.5),
        }
    );
    assert_eq!(
        Race::Bottom(RaceBottom::StratolopusArealus).attribute_ranges(),
        RaceRanges {
            aggressivity: span(0.2, 0.3),
            altruism: span(0.3, 0.5),
            collectioneur: span(0.0, 0.5),
            memory_time: span(0.5, 1.5),
        }
    );
    assert_eq!(Race::Mid(RaceMid::Piko).attribute_ranges().memory_time, span(2.0, 4.0));
    assert_eq!(Race::Mid(RaceMid::Piko).attribute_ranges().aggressivity, span(0.5, 0.7));
    assert_eq!(Race::Mid(RaceMid::Seahorse).attribute_ranges().memory_time, span(3.0, 3.5));
    assert_eq!(Race::Top(RaceTop::Squid).attribute_ranges().altruism, span(0.4, 0.9));
    assert_eq!(Race::Top(RaceTop::Whale).attribute_ranges().memory_time, span(5.0, 10.0));
    assert_eq!(Race::Top(RaceTop::Whale).attribute_ranges().aggressivity, span(0.1, 0.9));
}

#[test]
fn traits_are_drawn_from_the_ranges_of_the_race() {
    for race in [
        Race::Bottom(RaceBottom::Ameoba),
        Race::Bottom(RaceBottom::StratolopusArealus),
        Race::Mid(RaceMid::Piko),
        Race::Mid(RaceMid::Seahorse),
        Race::Top(RaceTop::Squid),
        Race::Top(RaceTop::Whale),
    ] {
        let ranges = race.attribute_ranges();
        for _ in 0..50 {
            let drawn = race.gen_attributes();
            assert!(within(ranges.aggressivity, drawn.social_attributes.aggressivity));
            assert!(within(ranges.altruism, drawn.social_attributes.altruism));
            assert!(within(ranges.collectioneur, drawn.social_attributes.collectioneur));
            assert!(within(ranges.memory_time, drawn.memory_time));
        }
    }
}

#[test]
fn races_and_feelings_by_number() {
    assert_eq!(Race::from_pick(&GameStage::Bottom, 0), Race::Bottom(RaceBottom::Ameoba));
    assert_eq!(Race::from_pick(&GameStage::Bottom, 1), Race::Bottom(RaceBottom::StratolopusArealus));
    assert_eq!(Race::from_pick(&GameStage::Mid, 0), Race::Mid(RaceMid::Piko));
    assert_eq!(Race::from_pick(&GameStage::Mid, 1), Race::Mid(RaceMid::Seahorse));
    assert_eq!(Race::from_pick(&GameStage::Top, 0), Race::Top(RaceTop::Squid));
    assert_eq!(Race::from_pick(&GameStage::Top, 1), Race::Top(RaceTop::Whale));
    assert_eq!(Feeling::from_pick(0), Feeling::Neutral);
    assert_eq!(Feeling::from_pick(1), Feeling::Happy);
    assert_eq!(Feeling::from_pick(2), Feeling::Sadness);
    assert_eq!(Feeling::from_pick(3), Feeling::Angry);
    let mut races = std::collections::HashSet::new();
    let mut feelings = std::collections::HashSet::new();
    for _ in 0..200 {
        let race = Race::random_race(&GameStage::Mid);
        assert!(matches!(race, Race::Mid(_)));
        races.insert(format!("{:?}", race));
        feelings.insert(format!("{:?}", Feeling::random_feeling()));
    }
    assert_eq!(races.len(), 2);
    assert_eq!(feelings.len(), 4);
}

#[test]
fn an_agent_of_a_stage_lies_in_its_part_of_the_world() {
    for _ in 0..100 {
        let a = Agent::gen_random(&GameStage::Bottom, 77);
        assert_eq!(a.id, 77);
        assert!(matches!(a.race, Race::Bottom(_)));
        assert!(!a.is_guardian);
        assert!(within(span(0.02, 0.05), a.mass));
        // 0.3 .. 0.7 of the width, 0 .. 0.05 of the height
        assert!(1_500_000_000 <= a.position.x.raw && a.position.x.raw < 3_500_000_000);
        assert!(0 <= a.position.y.raw && a.position.y.raw < 350_000_000);
        assert_eq!(a.last_position, a.position);
        assert_eq!(a.target_position, a.position);
        assert_eq!(a.radius, a.mass.times(fx(1000.0)).times(fx(0.15)));
        assert_eq!(a.sensors.sight_range, a.radius.times(fx(20.0)));
        assert_eq!(a.energy, fx(1.0));
        assert!(0 <= a.look_at_angle.raw && a.look_at_angle.raw < 6_300_000);
        assert_eq!(a.look_at_dir, v2(0.0, 0.0));
        assert_eq!(a.goal, Goal::Rest);
        assert!(within(a.race.attribute_ranges().memory_time, a.memory_time));

        let m = Agent::gen_random(&GameStage::Mid, 78);
        assert!(matches!(m.race, Race::Mid(_)));
        assert!(within(span(0.05, 0.11), m.mass));
        assert!(0 <= m.position.x.raw && m.position.x.raw < LEVEL_WIDTH);
        assert!(350_000_000 <= m.position.y.raw && m.position.y.raw < 1_400_000_000);

        let t = Agent::gen_random(&GameStage::Top, 79);
        assert!(matches!(t.race, Race::Top(_)));
        assert!(t.is_guardian);
        assert!(within(span(0.11, 0.2), t.mass));
        assert!(100_000_000 <= t.position.x.raw && t.position.x.raw < 4_900_000_000);
        assert!(1_400_000_000 <= t.position.y.raw && t.position.y.raw < 6_860_000_000);
    }
}

#[test]
fn a_guardian_stands_at_its_post() {
    let g = Agent::gen_guardian(v2(100.0, 5000.0), 25);
    assert_eq!(g.id, 25);
    assert!(g.is_guardian);
    assert_eq!(g.position, v2(100.0, 5000.0));
    assert_eq!(g.guardian_pos, v2(100.0, 5000.0));
    assert_eq!(g.last_position, v2(100.0, 5000.0));
    assert!(matches!(g.race, Race::Top(_)));
    assert!(within(span(0.11, 0.2), g.mass));
    assert_eq!(g.radius, g.mass.times(fx(1000.0)).times(fx(0.15)));
}

#[test]
fn the_posts_of_the_guardians() {
    // the first row, 2000 below the top: from the left and from the right
    assert_eq!(guardian_post(0), v2(0.0, 5000.0));
    assert_eq!(guardian_post(1), v2(212.5, 5000.0));
    assert_eq!(guardian_post(4), v2(850.0, 5000.0));
    assert_eq!(guardian_post(5), v2(5000.0, 5000.0));
    assert_eq!(guardian_post(6), v2(4575.0, 5000.0));
    assert_eq!(guardian_post(9), v2(3300.0, 5000.0));
    // the second row, 4000 below the top: over the whole width
    assert_eq!(guardian_post(10), v2(0.0, 3000.0));
    assert_eq!(guardian_post(13), v2(1500.0, 3000.0));
    assert_eq!(guardian_post(19), v2(4500.0, 3000.0));
}

#[test]
fn a_spawned_agent_is_made_of_what_it_is_given() {
    let attributes = RaceAttributes {
        social_attributes: SocialAttributes {
            aggressivity: fx(0.1),
            altruism: fx(0.2),
            collectioneur: fx(0.3),
        },
        memory_time: fx(4.5),
    };
    let a = Agent::spawn(
        9,
        v2(1.0, 2.0),
        fx(0.2),
        Race::Top(RaceTop::Whale),
        attributes,
        fx(1.25),
        true,
        v2(3.0, 4.0),
    );
    assert_eq!(a.id, 9);
    assert_eq!(a.position, v2(1.0, 2.0));
    assert_eq!(a.last_position, v2(1.0, 2.0));
    assert_eq!(a.target_position, v2(1.0, 2.0));
    assert_eq!(a.mass, fx(0.2));
    assert_eq!(a.previous_mass, fx(0.2));
    assert_eq!(a.radius, fx(30.0));
    assert_eq!(a.sensors.sight_range, fx(600.0));
    assert_eq!(a.race, Race::Top(RaceTop::Whale));
    assert_eq!(a.social.social_attributes, attributes.social_attributes);
    assert_eq!(a.social.feeling, Feeling::Neutral);
    assert_eq!(a.memory_time, fx(4.5));
    assert_eq!(a.look_at_angle, fx(1.25));
    assert!(a.is_guardian);
    assert_eq!(a.guardian_pos, v2(3.0, 4.0));
    assert_eq!(a.speed, fx(0.0));
    assert_eq!(a.turning, Turning::Straight);
    assert!(!a.boost && !a.just_collided);
    assert_eq!(a.last_agent_hit, 0);
    assert_eq!(a.entity, None);
    assert!(a.body.is_empty());
}

#[test]
fn the_default_agent() {
    let a = Agent::default();
    assert_eq!(a.mass, fx(0.1));
    assert_eq!(a.radius, fx(50.0));
    assert_eq!(a.position, v2(0.0, 0.0));
    assert_eq!(a.look_at_dir, v2(0.0, -1.0));
    assert_eq!(a.look_at_angle.raw, -1_570_750);
    assert_eq!(a.memory_time, fx(4.0));
    assert_eq!(a.energy, fx(100_000_000.0));
    assert_eq!(a.sensors.hearing_range, fx(1.0));
    assert_eq!(a.sensors.sight_range, fx(100.0));
    assert!(matches!(a.race, Race::Bottom(_)));
    assert_eq!(a.goal, Goal::Rest);
    let s = a.social.social_attributes;
    assert!(0 <= s.aggressivity.raw && s.aggressivity.raw < 1_000_000);
    assert!(0 <= s.altruism.raw && s.altruism.raw < 1_000_000);
    assert!(0 <= s.collectioneur.raw && s.collectioneur.raw < 1_000_000);
}

#[test]
fn a_new_goal_goes_by_the_traits_and_the_draws() {
    let mut a = Agent::default();
    a.social.social_attributes =
        SocialAttributes { aggressivity: fx(0.8), altruism: fx(0.5), collectioneur: fx(0.0) };
    // odds: fight 0.8 * 0.25 = 0.2, team 0.5 * 0.3 = 0.15, food 0.5
    a.find_new_goal_with(fx(3.0), fx(0.199999), fx(0.0), fx(0.0));
    assert_eq!(a.goal, Goal::SearchForAFight);
    assert_eq!(a.goal_time, fx(3.0));
    a.find_new_goal_with(fx(4.0), fx(0.2), fx(0.149999), fx(0.0));
    assert_eq!(a.goal, Goal::SearchTeam);
    a.find_new_goal_with(fx(5.0), fx(0.2), fx(0.15), fx(0.499999));
    assert_eq!(a.goal, Goal::SearchForFood);
    a.find_new_goal_with(fx(6.0), fx(0.2), fx(0.15), fx(0.5));
    assert_eq!(a.goal, Goal::Rest);
    assert_eq!(a.goal_time, fx(6.0));
    let mut goals = std::collections::HashSet::new();
    for _ in 0..500 {
        a.find_new_goal(fx(7.0));
        assert!(matches!(
            a.goal,
            Goal::SearchForAFight | Goal::SearchTeam | Goal::SearchForFood | Goal::Rest
        ));
        goals.insert(format!("{:?}", a.goal));
    }
    assert_eq!(goals.len(), 4);
}

#[test]
fn a_new_world_has_its_guardians_and_not_yet_the_player() {
    let game = Game::new();
    assert_eq!(game.time, fx(0.0));
    assert_eq!(game.game_stage, GameStage::Bottom);
    assert!(!game.won);
    assert_eq!(game.foods.len(), NUM_FOODS);
    assert!(game.agents.len() > 20 && game.agents.len() <= NUM_AGENTS + 20);
    assert_eq!(find_agent(&game.agents, 1), None);
    let mut ids: Vec<u32> = game.agents.iter().map(|a| a.id).collect();
    ids.sort();
    ids.dedup();
    assert_eq!(ids.len(), game.agents.len());
    for id in 20..40u32 {
        let p = find_agent(&game.agents, id).unwrap();
        assert!(game.agents[p].is_guardian);
        assert_eq!(game.agents[p].position, guardian_post(id - 20));
        assert_eq!(game.agents[p].guardian_pos, guardian_post(id - 20));
    }
    for f in &game.foods {
        assert!(0 <= f.position.x.raw && f.position.x.raw <= LEVEL_WIDTH);
        assert!(0 <= f.position.y.raw && f.position.y.raw <= LEVEL_HEIGHT);
        assert!(0 <= f.mass.raw && f.mass.raw < 20_000);
        assert!(0 <= f.energy.raw && f.energy.raw < 20_000);
    }
    assert_eq!(Game::gen_game_agents(0).len(), 20);
    assert!(Game::gen_foods(0).is_empty());
}

#[test]
fn an_agent_put_in_takes_the_place_of_the_one_with_its_id() {
    let mut game = Game {
        time: fx(0.0),
        game_stage: GameStage::Bottom,
        agents: vec![],
        foods: vec![],
        won: false,
    };
    game.insert_agent(Agent::gen_guardian(v2(1.0, 1.0), 5));
    game.insert_agent(Agent::gen_guardian(v2(2.0, 2.0), 6));
    game.insert_agent(Agent::gen_guardian(v2(3.0, 3.0), 5));
    assert_eq!(game.agents.len(), 2);
    assert_eq!(game.agents[0].id, 5);
    assert_eq!(game.agents[0].position, v2(3.0, 3.0));
    assert_eq!(game.agents[1].position, v2(2.0, 2.0));
}

#[test]
fn the_player_starts_below_the_surface_with_its_body() {
    let mut game = Game {
        time: fx(0.0),
        game_stage: GameStage::Bottom,
        agents: Game::gen_game_agents(10),
        foods: vec![],
        won: false,
    };
    let before = game.agents.len();
    let plan = vec![v2(0.0, 0.0), v2(100.0, 0.0), v2(0.0, 600.0)];
    game.setup_player(&plan);
    assert_eq!(game.agents.len(), before + 1);
    let p = find_agent(&game.agents, 1).unwrap();
    let player = &game.agents[p];
    assert_eq!(player.mass.raw, STARTING_MASS);
    assert_eq!(player.position, Vec2::new(fx(2500.0), Fixed::new(LEVEL_HEIGHT - STARTING_DEPTH)));
    assert_eq!(player.position, v2(2500.0, 5980.0));
    assert_eq!(player.last_position, player.position);
    assert_eq!(player.radius, fx(15.0));
    assert_eq!(player.body.len(), 3);
    assert_eq!(player.body[1].atom_pos, v2(10.0, 0.0));
    assert!(player.body[1].is_used);
    assert!(!player.body[2].is_used);
    // once more: the player is replaced, not doubled
    game.setup_player(&plan);
    assert_eq!(game.agents.len(), before + 1);

    let guardian_plan = vec![v2(1.0, 1.0)];
    let plans = vec![vec![v2(0.0, 0.0), v2(2.0, 2.0)], vec![v2(0.0, 0.0), v2(3.0, 3.0)]];
    game.setup_bodies(&plans, &guardian_plan);
    for a in &game.agents {
        if a.id == 1 {
            assert_eq!(a.body.len(), 3);
        } else if a.is_guardian {
            assert_eq!(a.body.len(), 1);
            assert_eq!(a.body[0].atom_pos, v2(1.0, 1.0).scale(a.mass));
        } else {
            assert_eq!(a.body.len(), 2);
            let second = a.body[1].atom_pos;
            assert!(second == v2(2.0, 2.0).scale(a.mass) || second == v2(3.0, 3.0).scale(a.mass));
        }
    }
    let dirs: Vec<Vec2> = game.agents.iter().map(|_| v2(0.0, 1.0)).collect();
    game.set_headings(&dirs);
    assert!(game.agents.iter().all(|a| a.look_at_dir == v2(0.0, 1.0)));
}
