use rise_above::agent::{Acceleration, Agent, Race, RaceBottom, SocialAttributes, Turning};
use rise_above::fixed::Fixed;
use rise_above::game::{Game, GameStage, LEVEL_WIDTH};
use rise_above::motion::{
    agents_movement, boost_impulse, compute_drag, compute_turn_angle, keep_in_world,
    main_char_movement, soften, steer, turn_by, Controls, Drive, MovementParams, Turn,
};
use rise_above::vec2::Vec2;
use rise_above::worldgen::RaceAttributes;

fn fx(v: f64) -> Fixed {
    Fixed::new((v * 1_000_000.0).round() as i64)
}

fn v2(x: f64, y: f64) -> Vec2 {
    Vec2::new(fx(x), fx(y))
}

fn agent(id: u32, x: f64, y: f64, mass: f64) -> Agent {
    let attributes = RaceAttributes {
        social_attributes: SocialAttributes {
            aggressivity: fx(0.5),
            altruism: fx(0.5),
            collectioneur: fx(0.5),
        },
        memory_time: fx(2.0),
    };
    let mut a = Agent::spawn(
        id,
        v2(x, y),
        fx(mass),
        Race::Bottom(RaceBottom::Ameoba),
        attributes,
        fx(0.0),
        false,
        v2(0.0, 0.0),
    );
    a.look_at_dir = v2(1.0, 0.0);
    a
}

fn npc_drive() -> Drive {
    Drive { throttle: fx(150.0), forward_gain: fx(1.0), boost_gain: fx(5.0), downcurrent: fx(0.0) }
}

const DT: i64 = 16_667;

#[test]
fn boost_rises_then_falls_then_ends() {
    // triggered at 10.0, lasting 0.3: at 10.1 it is at 0.1 / 0.21
    let triggered = fx(10.0);
    assert_eq!(boost_impulse(fx(10.1).minus(triggered)).raw, 476_190);
    // at 10.35 it is over
    assert_eq!(boost_impulse(fx(10.35).minus(triggered)).raw, 0);
    assert_eq!(boost_impulse(fx(0.0)).raw, 0);
    assert_eq!(boost_impulse(fx(0.105)).raw, 500_000);
    assert_eq!(boost_impulse(fx(0.21)).raw, 1_000_000);
    assert_eq!(boost_impulse(fx(0.255)).raw, 500_000);
    assert_eq!(boost_impulse(fx(0.299999)).raw, 12);
    assert_eq!(boost_impulse(fx(0.3)).raw, 0);
    assert_eq!(boost_impulse(fx(-0.1)).raw, 0);
}

#[test]
fn steering_turns_to_the_side_of_the_target() {
    assert_eq!(steer(v2(1.0, 0.0), v2(0.0, 5.0)), Some(Turning::Left(fx(1.0))));
    assert_eq!(steer(v2(1.0, 0.0), v2(3.0, -4.0)), Some(Turning::Right(fx(0.8))));
    // straight ahead: a turn of no measure
    assert_eq!(steer(v2(1.0, 0.0), v2(5.0, 0.0)), Some(Turning::Left(fx(0.0))));
    assert_eq!(steer(v2(0.6, 0.8), v2(-4.0, 3.0)), Some(Turning::Left(fx(1.0))));
    // a target where the agent stands: no turn
    assert_eq!(steer(v2(1.0, 0.0), v2(0.0, 0.0)), None);
    let mut a = agent(2, 10.0, 10.0, 0.05);
    a.acc = Acceleration::Idle;
    a.steer_towards(v2(10.0, 10.0));
    assert_eq!(a.acc, Acceleration::Idle);
    assert_eq!(a.turning, Turning::Straight);
    a.steer_towards(v2(13.0, 6.0));
    assert_eq!(a.acc, Acceleration::Forward);
    assert_eq!(a.turning, Turning::Right(fx(0.8)));
}

#[test]
fn the_turn_grows_with_the_speed_up_to_the_maximum() {
    let params = MovementParams::stage1();
    assert_eq!(soften(fx(0.25)), fx(0.5));
    assert_eq!(soften(fx(0.5)), fx(1.0));
    assert_eq!(soften(fx(0.9)), fx(1.0));
    // half a turn, at rest rate 0.02 plus min(2 * 0.03, 0.03)
    assert_eq!(compute_turn_angle(Turning::Left(fx(0.25)), fx(2.0), fx(0.0), &params).raw, 25_000);
    // to the right: negative; 0.02 + 0.5 * 0.03
    assert_eq!(compute_turn_angle(Turning::Right(fx(1.0)), fx(0.5), fx(0.0), &params).raw, -35_000);
    // during a boost the speed counts less
    assert_eq!(compute_turn_angle(Turning::Left(fx(1.0)), fx(0.5), fx(0.5), &params).raw, 27_500);
    assert_eq!(compute_turn_angle(Turning::Straight, fx(2.0), fx(0.0), &params).raw, 0);
}

#[test]
fn drag_goes_against_the_step() {
    let params = MovementParams::stage1();
    // a step of length 5 along (0.6, 0.8): -(0.2 * 5 + 0.2 * 25) = -6 along it
    assert_eq!(compute_drag(v2(3.0, 4.0), &params), v2(-3.6, -4.8));
    assert_eq!(compute_drag(v2(0.0, 0.0), &params), v2(0.0, 0.0));
}

#[test]
fn the_world_keeps_an_agent_in() {
    let r = fx(7.5);
    let bounce = fx(10.0);
    // inside: untouched
    assert_eq!(keep_in_world(v2(100.0, 100.0), r, bounce), v2(100.0, 100.0));
    // below the floor: up to the radius plus the bounce
    assert_eq!(keep_in_world(v2(100.0, 7.499999), r, bounce), v2(100.0, 17.5));
    assert_eq!(keep_in_world(v2(100.0, 7.5), r, bounce), v2(100.0, 7.5));
    // beyond the left wall: in to the radius plus 4
    assert_eq!(keep_in_world(v2(-20.0, 50.0), r, bounce), v2(11.5, 50.0));
    // beyond the right wall: in to the width less the radius less 4
    assert_eq!(keep_in_world(v2(4992.500001, 50.0), r, bounce), v2(4988.5, 50.0));
    assert_eq!(keep_in_world(v2(4992.5, 50.0), r, bounce), v2(4992.5, 50.0));
    // a corner: both at once
    assert_eq!(keep_in_world(v2(-1.0, -1.0), r, bounce), v2(11.5, 17.5));
}

#[test]
fn after_a_step_every_agent_with_room_is_in_the_world() {
    let params = MovementParams::stage3();
    let starts = [
        (v2(0.0, 0.0), v2(500.0, 500.0)),
        (v2(4999.0, 1.0), v2(4000.0, 300.0)),
        (v2(-300.0, -300.0), v2(0.0, 0.0)),
        (v2(2500.0, 7.0), v2(2500.0, 900.0)),
        (v2(9000.0, 50.0), v2(9000.0, 50.0)),
    ];
    for mass in [0.02, 0.05, 0.2, 1.0, 16.0] {
        for (position, last_position) in starts {
            let mut a = agent(2, 0.0, 0.0, mass);
            a.position = position;
            a.last_position = last_position;
            a.integrate(&params, &npc_drive(), Fixed::new(DT), fx(1.0));
            let r = a.radius.raw;
            assert!(a.position.y.raw >= r);
            assert!(a.position.x.raw >= r);
            assert!(a.position.x.raw <= LEVEL_WIDTH - r);
        }
    }
}

#[test]
fn an_agent_too_wide_for_the_world_is_not_kept_in() {
    // a radius of 3000 leaves no room between walls 5000 apart
    let p = keep_in_world(v2(100.0, 5000.0), fx(3000.0), fx(10.0));
    assert_eq!(p, v2(1996.0, 5000.0));
    assert!(p.x.raw < 3000_000_000);
}

#[test]
fn a_heading_stays_within_a_full_turn() {
    assert_eq!(turn_by(fx(1.0), fx(0.5)), fx(1.5));
    assert_eq!(turn_by(fx(6.2), fx(0.2)).raw, 116_815);
    // the remainder has the sign of the angle
    assert_eq!(turn_by(fx(-6.2), fx(-0.2)).raw, -116_815);
    assert_eq!(turn_by(fx(6.283185), fx(0.0)).raw, 0);
}

#[test]
fn a_step_carries_the_last_step_on_and_adds_the_acceleration() {
    let params = MovementParams::stage1();
    let mut a = agent(2, 100.0, 100.0, 0.05);
    a.last_position = v2(99.0, 100.0);
    a.integrate(&params, &npc_drive(), Fixed::new(DT), fx(1.0));
    // step 1, drag -(0.2 + 0.2), thrust 1: 1 + 0.6 * dt * dt * 150
    assert_eq!(a.position, Vec2::new(Fixed::new(101_024_900), fx(100.0)));
    assert_eq!(a.last_position, v2(100.0, 100.0));
    assert_eq!(a.speed.raw, 1_024_900);
    assert_eq!(a.look_at_angle.raw, 0);
    assert_eq!(a.velocity, v2(0.0, 0.0));
}

#[test]
fn a_boosted_step_with_a_turn() {
    let params = MovementParams::stage1();
    let mut a = agent(2, 100.0, 100.0, 0.05);
    a.last_position = v2(100.0, 98.0);
    a.look_at_dir = v2(0.0, 1.0);
    a.look_at_angle = fx(1.570796);
    a.speed = fx(2.0);
    a.boost = true;
    a.boost_time = fx(0.9);
    a.turning = Turning::Left(fx(0.25));
    a.integrate(&params, &npc_drive(), Fixed::new(DT), fx(1.0));
    assert_eq!(a.position, Vec2::new(fx(100.0), Fixed::new(102_090_750)));
    assert_eq!(a.speed.raw, 2_090_750);
    assert_eq!(a.look_at_angle.raw, 1_595_796);
    assert_eq!(a.velocity, v2(0.0, 2.0));

    let mut b = agent(3, 100.0, 100.0, 0.05);
    b.last_position = v2(100.0, 98.0);
    b.look_at_dir = v2(0.0, 1.0);
    b.look_at_angle = fx(1.570796);
    b.acc = Acceleration::Backward;
    b.turning = Turning::Right(fx(0.8));
    b.integrate(&params, &npc_drive(), Fixed::new(DT), fx(1.0));
    assert_eq!(b.position, Vec2::new(fx(100.0), Fixed::new(101_937_600)));
    assert_eq!(b.look_at_angle.raw, 1_520_796);
}

#[test]
fn the_floor_and_the_walls_throw_back_on_a_step() {
    let params = MovementParams::stage1();
    let mut a = agent(2, 3.0, 3.0, 0.05);
    a.last_position = v2(5.0, 6.0);
    a.acc = Acceleration::Idle;
    a.integrate(&params, &npc_drive(), Fixed::new(DT), fx(1.0));
    assert_eq!(a.position, v2(11.5, 17.5));
    assert_eq!(a.speed.raw, 16_807_736);
    let mut b = agent(3, 4995.0, 50.0, 0.05);
    b.last_position = v2(4990.0, 50.0);
    b.acc = Acceleration::Idle;
    b.integrate(&params, &npc_drive(), Fixed::new(DT), fx(1.0));
    assert_eq!(b.position, v2(4988.5, 50.0));
    assert_eq!(b.speed.raw, 6_500_000);
}

#[test]
fn what_drives_the_player_and_what_the_others() {
    let params = MovementParams::stage1();
    let mut p = agent(1, 2500.0, 3500.0, 0.1);
    p.energy = fx(0.8);
    // boost (5 + 0.1 / 0.05) * 0.8; downcurrent 0.1 + 0.5 * 3
    assert_eq!(
        p.drive_of_player(&params),
        Drive {
            throttle: fx(150.0),
            forward_gain: fx(0.8),
            boost_gain: fx(5.6),
            downcurrent: fx(1.6),
        }
    );
    // the others: forward by their energy too, without a downcurrent
    assert_eq!(
        p.drive_of_npc(&params),
        Drive {
            throttle: fx(150.0),
            forward_gain: fx(0.8),
            boost_gain: fx(5.0),
            downcurrent: fx(0.0),
        }
    );
    p.is_guardian = true;
    assert_eq!(p.drive_of_npc(&params).throttle, fx(600.0));
}

#[test]
fn only_the_player_moves_in_its_pass_and_only_the_others_in_theirs() {
    let params = MovementParams::stage1();
    let mut player = agent(1, 2500.0, 3500.0, 0.1);
    player.energy = fx(0.8);
    player.look_at_dir = v2(0.0, 1.0);
    player.look_at_angle = fx(1.570796);
    let mut other = agent(2, 100.0, 100.0, 0.05);
    other.target_position = v2(100.0, 200.0);
    let mut game = Game {
        time: fx(0.0),
        game_stage: GameStage::Bottom,
        agents: vec![other, player],
        foods: vec![],
        won: false,
    };
    main_char_movement(&mut game, fx(1.0), Fixed::new(DT), &params);
    assert_eq!(game.agents[0].position, v2(100.0, 100.0));
    // thrust 0.8 up against a downcurrent of 1.6
    assert_eq!(game.agents[1].position, Vec2::new(fx(2500.0), Fixed::new(3_499_966_700)));
    assert_eq!(game.agents[1].speed.raw, 33_300);
    let player_now = game.agents[1].position;
    agents_movement(&mut game, fx(1.0), Fixed::new(DT), &params);
    assert_eq!(game.agents[1].position, player_now);
    // the other one heads for its target, to its left, and moves ahead
    assert_eq!(game.agents[0].turning, Turning::Left(fx(1.0)));
    assert_eq!(game.agents[0].acc, Acceleration::Forward);
    assert_eq!(game.agents[0].position, Vec2::new(Fixed::new(100_041_550), fx(100.0)));
    assert_eq!(game.agents[0].look_at_angle.raw, 20_000);
}

#[test]
fn the_controls_of_the_player() {
    let params = MovementParams::stage1();
    let mut a = agent(1, 10.0, 10.0, 0.05);
    a.main_char_target_pos = Some(v2(50.0, 50.0));
    a.boost_time = fx(4.0);
    let idle = Controls {
        accelerate: Acceleration::Idle,
        turn: Turn::Straight,
        boost_requested: false,
        steer_target: None,
    };
    // nothing asked: the agent still heads for the point it steers to
    a.apply_controls(&idle, fx(4.5), &params);
    assert_eq!(a.main_char_target_pos, Some(v2(50.0, 50.0)));
    assert_eq!(a.acc, Acceleration::Forward);
    // the point lies along (40, 40), of length 56.568542 rounded down
    assert_eq!(a.turning, Turning::Left(Fixed::new(707_106)));
    // a key drops the point
    let keys = Controls { accelerate: Acceleration::Backward, turn: Turn::Right, ..idle };
    a.apply_controls(&keys, fx(4.5), &params);
    assert_eq!(a.main_char_target_pos, None);
    assert_eq!(a.acc, Acceleration::Backward);
    assert_eq!(a.turning, Turning::Right(fx(1.0)));
    // a boost too soon after the last: not yet (stage 1 asks for more than 1.0)
    let boost = Controls { boost_requested: true, ..idle };
    a.apply_controls(&boost, fx(5.0), &params);
    assert!(!a.boost);
    assert_eq!(a.boost_time, fx(4.0));
    assert_eq!(a.acc, Acceleration::Idle);
    assert_eq!(a.turning, Turning::Straight);
    a.apply_controls(&boost, fx(5.000001), &params);
    assert!(a.boost);
    assert_eq!(a.boost_time, fx(5.000001));
    // a new point to steer to
    let click = Controls { steer_target: Some(v2(10.0, 0.0)), ..idle };
    a.apply_controls(&click, fx(6.0), &params);
    assert_eq!(a.main_char_target_pos, Some(v2(10.0, 0.0)));
    assert_eq!(a.turning, Turning::Right(fx(1.0)));
    assert_eq!(a.acc, Acceleration::Forward);
}

#[test]
fn the_parameters_of_the_stages() {
    let d = MovementParams::default();
    assert_eq!(d.friction1, fx(0.9));
    assert_eq!(d.throttle, fx(50.0));
    assert_eq!(d.time_between_boosts, fx(2.0));
    assert_eq!(d.bottom_bounce, fx(2.0));
    let s1 = MovementParams::stage1();
    assert_eq!(s1.friction2, fx(0.2));
    assert_eq!(s1.throttle, fx(150.0));
    assert_eq!(s1.bottom_bounce, fx(10.0));
    let s2 = MovementParams::stage2();
    assert_eq!(s2.friction2, fx(0.13));
    assert_eq!(s2.boost_mult, fx(13.0));
    assert_eq!(s2.rest_turn_speed, fx(0.013));
    let s3 = MovementParams::stage3();
    assert_eq!(s3.friction1, fx(0.09));
    assert_eq!(s3.max_turn_speed, fx(0.1));
    assert_eq!(s3.throttle, fx(1500.0));
    assert_eq!(s3.time_between_boosts, fx(0.25));
    assert_eq!(s3.bottom_bounce, fx(50.0));
    assert_eq!(s3.backwards_mult, fx(0.3));
    assert_eq!(s3.turning_speed_dependence, fx(0.05));
}

#[test]
fn a_turn_goes_its_way_and_stays_within_the_maximum_rate() {
    let params = MovementParams::stage1();
    let max = params.max_turn_speed.raw;
    for delta in [0.0, 0.1, 0.499999, 0.5, 1.0, 2.0] {
        for speed in [0.0, 0.3, 2.0, 500.0, -4.0] {
            for boost in [0.0, 0.5, 1.0] {
                let left =
                    compute_turn_angle(Turning::Left(fx(delta)), fx(speed), fx(boost), &params);
                let right =
                    compute_turn_angle(Turning::Right(fx(delta)), fx(speed), fx(boost), &params);
                assert!(0 <= left.raw && left.raw <= max);
                assert!(-max <= right.raw && right.raw <= 0);
                assert_eq!(right.raw, -left.raw);
                assert!(0 <= soften(fx(delta)).raw && soften(fx(delta)).raw <= 1_000_000);
            }
        }
    }
    // the side of the target picks the way
    for (x, y) in [(3.0, 4.0), (-2.0, 0.5), (0.0, 9.0), (7.0, 0.0)] {
        assert!(matches!(steer(v2(1.0, 0.0), v2(x, y)), Some(Turning::Left(d)) if d.raw >= 0));
        if y != 0.0 {
            assert!(matches!(steer(v2(1.0, 0.0), v2(x, -y)), Some(Turning::Right(d)) if d.raw > 0));
        }
    }
}
