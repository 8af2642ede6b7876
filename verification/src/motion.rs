//! Motion: steering toward a target, the boost, drag, the step that carries
//! an agent from its last two positions to the next, and the bounds of the
//! world.

use crate::agent::{Acceleration, Agent, Turning, MAIN_CHARACTER_ID};
use crate::fixed::{isqrt, quot, rem, sat, Fixed, LIMIT, ONE};
use crate::game::{Game, LEVEL_HEIGHT, LEVEL_WIDTH};
use crate::vec2::{norm2, vec_dot, vec_minus, vec_plus, vec_scale, Vec2};
use vstd::prelude::*;

verus! {

/// Raw time that a boost lasts.
pub const TOTAL_BOOST_TIME: i64 = 300_000;

/// Raw time over which a boost rises: seven tenths of what it lasts.
pub const BOOST_RISE_TIME: i64 = 210_000;

/// Raw time over which a boost falls: three tenths of what it lasts.
pub const BOOST_FALL_TIME: i64 = 90_000;

/// Raw distance that a wall of the world throws an agent back.
pub const WALL_BOUNCE: i64 = 4_000_000;

/// Raw measure of the turn below which an agent turns softly.
pub const SOFT_ANGULAR: i64 = 500_000;

/// Raw value of a full turn in radians.
pub const FULL_TURN: i64 = 6_283_185;

/// Raw factor on the throttle of a guardian.
pub const GUARDIAN_THROTTLE: i64 = 4_000_000;

/// Raw current that pulls the player's agent down at the floor of the world.
pub const DOWNCURRENT_BASE: i64 = 100_000;

/// Raw growth of that current over the height of the world.
pub const DOWNCURRENT_RISE: i64 = 3_000_000;

/// Raw mass that adds one to the factor of the player's boost.
pub const BOOST_MASS_UNIT: i64 = 50_000;

/// The free parameters of motion.
#[derive(Clone, Copy, Debug, PartialEq, Eq, Structural)]
pub struct MovementParams {
    /// Drag in proportion to the speed.
    pub friction1: Fixed,
    /// Drag in proportion to the square of the speed.
    pub friction2: Fixed,
    /// Scale of every acceleration.
    pub throttle: Fixed,
    /// How much faster an agent turns for each unit of speed.
    pub turning_speed_dependence: Fixed,
    pub backwards_mult: Fixed,
    pub boost_mult: Fixed,
    pub rest_turn_speed: Fixed,
    pub max_turn_speed: Fixed,
    pub time_between_boosts: Fixed,
    /// How far the floor throws an agent back.
    pub bottom_bounce: Fixed,
}

/// What the player asks of its agent in one tick.
#[derive(Clone, Copy, Debug, PartialEq, Eq, Structural)]
pub struct Controls {
    pub accelerate: Acceleration,
    pub turn: Turn,
    pub boost_requested: bool,
    pub steer_target: Option<Vec2>,
}

/// A turn asked for, without a measure.
#[derive(Clone, Copy, Debug, PartialEq, Eq, Structural)]
pub enum Turn {
    Left,
    Right,
    Straight,
}

/// What differs between the motion of one agent and another's.
#[derive(Clone, Copy, Debug, PartialEq, Eq, Structural)]
pub struct Drive {
    /// Scale of the acceleration.
    pub throttle: Fixed,
    /// Factor on the acceleration forward.
    pub forward_gain: Fixed,
    /// Factor on the boost.
    pub boost_gain: Fixed,
    /// Pull straight down.
    pub downcurrent: Fixed,
}

/// The boost at `time` after it was triggered, raw: it rises in a straight
/// line from zero to one over the rise time, falls back to zero over the
/// fall time, and is zero before and after.
pub open spec fn boost_curve(time: int) -> int {
    if 0 <= time < BOOST_RISE_TIME {
        sat(quot(time * ONE, BOOST_RISE_TIME as int))
    } else if BOOST_RISE_TIME <= time < TOTAL_BOOST_TIME {
        sat(ONE - sat(quot(sat(time - BOOST_RISE_TIME) * ONE, BOOST_FALL_TIME as int)))
    } else {
        0
    }
}

/// A boost is never below zero nor above one.
pub proof fn lemma_boost_curve_bounds(time: int)
    ensures
        0 <= boost_curve(time) <= ONE,
{
    if 0 <= time < BOOST_RISE_TIME {
        let n = time * ONE;
        assert(0 <= n / (BOOST_RISE_TIME as int) <= ONE) by (nonlinear_arith)
            requires
                0 <= time < 210_000,
                n == time * 1_000_000,
        ;
    } else if BOOST_RISE_TIME <= time < TOTAL_BOOST_TIME {
        let n = (time - BOOST_RISE_TIME) * ONE;
        assert(0 <= n / (BOOST_FALL_TIME as int) <= ONE) by (nonlinear_arith)
            requires
                0 <= time - 210_000 < 90_000,
                n == (time - 210_000) * 1_000_000,
        ;
    }
}

/// The boost at `time` after it was triggered.
pub fn boost_impulse(time: Fixed) -> (r: Fixed)
    ensures
        r@ == boost_curve(time@),
        0 <= r@ <= ONE,
{
    proof {
        lemma_boost_curve_bounds(time@);
    }
    if time.raw < 0 {
        Fixed::zero()
    } else if time.raw < BOOST_RISE_TIME {
        time.over(Fixed::new(BOOST_RISE_TIME))
    } else if time.raw < TOTAL_BOOST_TIME {
        Fixed::one().minus(time.minus(Fixed::new(BOOST_RISE_TIME)).over(Fixed::new(BOOST_FALL_TIME)))
    } else {
        Fixed::zero()
    }
}

/// How an agent that looks along `look_at_dir` turns toward a point that
/// lies `to_target` away: to the left or to the right as the point lies, and
/// by the sine of the angle between the two. No turn toward a point at no
/// distance.
pub open spec fn steering(look_at_dir: Vec2, to_target: Vec2) -> Option<Turning> {
    if to_target == Vec2::origin() {
        None
    } else {
        let side = Fixed::of(
            vec_dot(
                Vec2 { x: look_at_dir.y.negated(), y: look_at_dir.x },
                to_target.unit(),
            ),
        );
        if side@ < 0 {
            Some(Turning::Right(side.negated()))
        } else {
            Some(Turning::Left(side))
        }
    }
}

/// The measure of a turn, softened: in proportion below the soft limit, one
/// from there on.
pub open spec fn softened(delta: Fixed) -> Fixed {
    if delta@ < SOFT_ANGULAR {
        delta.ratio(Fixed::of(SOFT_ANGULAR as int))
    } else {
        Fixed::of(ONE as int)
    }
}

/// The angle by which an agent turns in one tick: the softened measure of
/// its turn times a rate that grows with the speed from the rate at rest to
/// the maximum rate, and less so during a boost; positive to the left.
pub open spec fn turn_angle(
    turning: Turning,
    speed: Fixed,
    boost: Fixed,
    params: MovementParams,
) -> Fixed {
    let speed_turn = speed.prod(params.turning_speed_dependence).prod(
        Fixed::of(ONE as int).diff(boost),
    );
    let rate = params.rest_turn_speed.sum(
        speed_turn.clamped(Fixed::of(0), params.max_turn_speed.diff(params.rest_turn_speed)),
    );
    match turning {
        Turning::Left(delta) => softened(delta).prod(rate),
        Turning::Right(delta) => softened(delta).prod(rate).negated(),
        Turning::Straight => Fixed::of(0),
    }
}

/// The softened measure of a turn lies between nought and one.
pub proof fn lemma_softened_bound(delta: Fixed)
    requires
        delta@ >= 0,
    ensures
        0 <= softened(delta)@ <= ONE,
{
    if delta@ < SOFT_ANGULAR {
        let n = delta@ * ONE;
        assert(0 <= n < SOFT_ANGULAR * ONE) by (nonlinear_arith)
            requires
                n == delta@ * ONE,
                0 <= delta@ < SOFT_ANGULAR,
                ONE == 1_000_000,
        ;
        assert(0 <= n / (SOFT_ANGULAR as int) < ONE) by (nonlinear_arith)
            requires
                0 <= n < SOFT_ANGULAR * ONE,
                SOFT_ANGULAR == 500_000,
                ONE == 1_000_000,
        ;
    }
}

/// An agent turns the way its turn says, and by no more than the maximum
/// rate: to the left by an angle that is not negative, to the right by one
/// that is not positive, and not at all while it goes straight. This holds at
/// any speed and during any boost, for a measure of the turn that is not
/// negative and a rate at rest that is neither negative nor above the
/// maximum.
pub proof fn lemma_turn_sign_and_bound(
    turning: Turning,
    speed: Fixed,
    boost: Fixed,
    params: MovementParams,
)
    requires
        0 <= params.rest_turn_speed@ <= params.max_turn_speed@,
        match turning {
            Turning::Left(delta) | Turning::Right(delta) => delta@ >= 0,
            Turning::Straight => true,
        },
    ensures
        match turning {
            Turning::Left(_) => 0 <= turn_angle(turning, speed, boost, params)@
                <= params.max_turn_speed@,
            Turning::Right(_) => -params.max_turn_speed@ <= turn_angle(
                turning,
                speed,
                boost,
                params,
            )@ <= 0,
            Turning::Straight => turn_angle(turning, speed, boost, params)@ == 0,
        },
{
    let speed_turn = speed.prod(params.turning_speed_dependence).prod(
        Fixed::of(ONE as int).diff(boost),
    );
    let rate = params.rest_turn_speed.sum(
        speed_turn.clamped(Fixed::of(0), params.max_turn_speed.diff(params.rest_turn_speed)),
    );
    assert(0 <= rate@ <= params.max_turn_speed@);
    match turning {
        Turning::Left(delta) | Turning::Right(delta) => {
            lemma_softened_bound(delta);
            crate::fixed::lemma_mul_raw_bound(rate@, softened(delta)@);
            crate::fixed::lemma_mul_raw_sign(softened(delta)@, rate@);
        },
        Turning::Straight => {},
    }
}

/// An agent steers to the side on which its target lies: to the left where
/// the target is not to the right of its heading, to the right where it is;
/// the measure of the turn is how far to the side the target lies, and is not
/// negative.
pub proof fn lemma_steering_side(look_at_dir: Vec2, to_target: Vec2)
    ensures
        ({
            let side = vec_dot(
                Vec2 { x: look_at_dir.y.negated(), y: look_at_dir.x },
                to_target.unit(),
            );
            match steering(look_at_dir, to_target) {
                Some(Turning::Left(delta)) => side >= 0 && delta@ == side,
                Some(Turning::Right(delta)) => side < 0 && delta@ == -side,
                Some(Turning::Straight) => false,
                None => to_target == Vec2::origin(),
            }
        }),
{
}

/// The acceleration that an agent gives itself along `forward`: forward by
/// the forward gain, backward by the factor for it, or none; more during a
/// boost.
pub open spec fn thrust(
    acc: Acceleration,
    forward: Vec2,
    boost: Fixed,
    boosting: bool,
    drive: Drive,
    params: MovementParams,
) -> Vec2 {
    let base = match acc {
        Acceleration::Forward => vec_scale(forward, drive.forward_gain@),
        Acceleration::Backward => vec_scale(
            Vec2 { x: forward.x.negated(), y: forward.y.negated() },
            params.backwards_mult@,
        ),
        Acceleration::Idle => Vec2::origin(),
    };
    if boosting {
        vec_scale(base, Fixed::of(ONE as int).sum(boost.prod(drive.boost_gain))@)
    } else {
        base
    }
}

/// The drag on an agent that made the step `step` in the last tick: against
/// the step, by its length and by the square of its length.
pub open spec fn drag(step: Vec2, params: MovementParams) -> Vec2 {
    let length = Fixed::of(sat(isqrt(norm2(step.x@, step.y@))));
    let dir = if step == Vec2::origin() {
        Vec2::origin()
    } else {
        step.unit()
    };
    let linear = vec_scale(dir, params.friction1.negated().prod(length)@);
    let square = vec_scale(dir, params.friction2.prod(length.prod(length))@);
    vec_minus(linear, square)
}

/// The point `p` brought back into the world for an agent of radius
/// `radius`: up from below the floor and in from beyond the walls, each time
/// by the bounce.
pub open spec fn kept_in_world(p: Vec2, radius: Fixed, bottom_bounce: Fixed) -> Vec2 {
    let y = if p.y@ < radius@ {
        radius.sum(bottom_bounce)
    } else {
        p.y
    };
    let x1 = if p.x@ < radius@ {
        radius.sum(Fixed::of(WALL_BOUNCE as int))
    } else {
        p.x
    };
    let right = Fixed::of(LEVEL_WIDTH as int).diff(radius);
    let x2 = if x1@ > right@ {
        right.diff(Fixed::of(WALL_BOUNCE as int))
    } else {
        x1
    };
    Vec2 { x: x2, y }
}

/// An agent of radius `radius` has room between the walls, and the floor
/// throws it upward.
pub open spec fn has_room(radius: Fixed, bottom_bounce: Fixed) -> bool {
    &&& 0 <= radius@
    &&& radius@ + radius@ + WALL_BOUNCE <= LEVEL_WIDTH
    &&& 0 <= bottom_bounce@
}

/// `p` lies in the world for an agent of radius `radius`: not below the
/// floor and not beyond a wall.
pub open spec fn in_world(p: Vec2, radius: Fixed) -> bool {
    &&& radius@ <= p.y@
    &&& radius@ <= p.x@
    &&& p.x@ <= LEVEL_WIDTH - radius@
}

/// What is brought back into the world lies in the world, for an agent that
/// has room there.
pub proof fn lemma_kept_in_world(p: Vec2, radius: Fixed, bottom_bounce: Fixed)
    requires
        has_room(radius, bottom_bounce),
    ensures
        in_world(kept_in_world(p, radius, bottom_bounce), radius),
{
}

/// The heading `angle` after a turn by `turn`, kept within a full turn.
pub open spec fn turned(angle: Fixed, turn: Fixed) -> Fixed {
    Fixed::of(rem(angle.sum(turn)@, FULL_TURN as int))
}

/// The agent after one tick of motion of length `dt` at `time`.
///
/// Its velocity becomes the heading at the old speed. It accelerates as it
/// wants to, more during a boost, against the drag and the downcurrent; the
/// step of the last tick and the acceleration carry it on; the world keeps
/// it in. The speed becomes the length of the step made.
pub open spec fn moved(
    agent: Agent,
    params: MovementParams,
    drive: Drive,
    dt: Fixed,
    time: Fixed,
) -> Agent {
    let step = vec_minus(agent.position, agent.last_position);
    let boost = if agent.boost {
        Fixed::of(boost_curve(time.diff(agent.boost_time)@))
    } else {
        Fixed::of(0)
    };
    let push = thrust(agent.acc, agent.look_at_dir, boost, agent.boost, drive, params);
    let pull = Vec2 { x: Fixed::of(0), y: drive.downcurrent.negated() };
    let acc = vec_plus(push, vec_plus(drag(step, params), pull));
    let gained = vec_scale(vec_scale(vec_scale(acc, dt@), dt@), drive.throttle@);
    let aimed = vec_plus(agent.position, vec_plus(step, gained));
    let next = kept_in_world(aimed, agent.radius, params.bottom_bounce);
    let made = vec_minus(next, agent.position);
    Agent {
        velocity: vec_scale(agent.look_at_dir, agent.speed@),
        speed: Fixed::of(sat(isqrt(norm2(made.x@, made.y@)))),
        last_position: agent.position,
        position: next,
        look_at_angle: turned(
            agent.look_at_angle,
            turn_angle(
                agent.turning,
                Fixed::of(sat(isqrt(norm2(step.x@, step.y@)))),
                boost,
                params,
            ),
        ),
        ..agent
    }
}

/// After a tick of motion an agent that has room in the world is in it: not
/// below the floor and not beyond a wall.
pub proof fn lemma_moved_in_world(
    agent: Agent,
    params: MovementParams,
    drive: Drive,
    dt: Fixed,
    time: Fixed,
)
    requires
        has_room(agent.radius, params.bottom_bounce),
    ensures
        in_world(moved(agent, params, drive, dt, time).position, agent.radius),
        moved(agent, params, drive, dt, time).radius == agent.radius,
{
    let step = vec_minus(agent.position, agent.last_position);
    let boost = if agent.boost {
        Fixed::of(boost_curve(time.diff(agent.boost_time)@))
    } else {
        Fixed::of(0)
    };
    let push = thrust(agent.acc, agent.look_at_dir, boost, agent.boost, drive, params);
    let pull = Vec2 { x: Fixed::of(0), y: drive.downcurrent.negated() };
    let acc = vec_plus(push, vec_plus(drag(step, params), pull));
    let gained = vec_scale(vec_scale(vec_scale(acc, dt@), dt@), drive.throttle@);
    let aimed = vec_plus(agent.position, vec_plus(step, gained));
    lemma_kept_in_world(aimed, agent.radius, params.bottom_bounce);
}

/// What drives the player's agent: the throttle as it is, forward by its
/// energy, a boost by its energy and stronger for a heavier agent, and a
/// downcurrent that grows with the height.
pub open spec fn player_drive(agent: Agent, params: MovementParams) -> Drive {
    Drive {
        throttle: params.throttle,
        forward_gain: agent.energy,
        boost_gain: params.boost_mult.sum(agent.mass.ratio(Fixed::of(BOOST_MASS_UNIT as int))).prod(
            agent.energy,
        ),
        downcurrent: Fixed::of(DOWNCURRENT_BASE as int).sum(
            agent.position.y.ratio(Fixed::of(LEVEL_HEIGHT as int)).prod(
                Fixed::of(DOWNCURRENT_RISE as int),
            ),
        ),
    }
}

/// What drives an agent that the player does not steer: forward by its
/// energy, four times the throttle for a guardian, and no downcurrent.
pub open spec fn npc_drive(agent: Agent, params: MovementParams) -> Drive {
    Drive {
        throttle: if agent.is_guardian {
            params.throttle.prod(Fixed::of(GUARDIAN_THROTTLE as int))
        } else {
            params.throttle
        },
        forward_gain: agent.energy,
        boost_gain: params.boost_mult,
        downcurrent: Fixed::of(0),
    }
}

/// The agent with its turn and acceleration set toward `target`; as it is
/// where the target is where it stands.
pub open spec fn steered(agent: Agent, target: Vec2) -> Agent {
    match steering(agent.look_at_dir, vec_minus(target, agent.position)) {
        Some(turning) => Agent { turning, acc: Acceleration::Forward, ..agent },
        None => agent,
    }
}

/// The player's agent after the controls of one tick at `time`: it
/// accelerates and turns as asked; a boost starts if one is asked for and the
/// last one is long enough ago; whatever is asked for by key drops the point
/// to steer to, and a new point replaces it; an agent with a point to steer
/// to heads for it.
pub open spec fn controlled(
    agent: Agent,
    controls: Controls,
    time: Fixed,
    params: MovementParams,
) -> Agent {
    let keyed = !(controls.accelerate is Idle) || !(controls.turn is Straight);
    let boosts = controls.boost_requested && time.diff(agent.boost_time)@
        > params.time_between_boosts@;
    let kept_target = if keyed || boosts {
        None
    } else {
        agent.main_char_target_pos
    };
    let target = match controls.steer_target {
        Some(p) => Some(p),
        None => kept_target,
    };
    let asked = Agent {
        acc: controls.accelerate,
        turning: match controls.turn {
            Turn::Left => Turning::Left(Fixed::of(ONE as int)),
            Turn::Right => Turning::Right(Fixed::of(ONE as int)),
            Turn::Straight => Turning::Straight,
        },
        boost: agent.boost || boosts,
        boost_time: if boosts {
            time
        } else {
            agent.boost_time
        },
        main_char_target_pos: target,
        ..agent
    };
    match target {
        Some(p) => steered(asked, p),
        None => asked,
    }
}

impl Default for MovementParams {
    fn default() -> (r: MovementParams)
        ensures
            r == (MovementParams {
                friction1: Fixed::of(900_000),
                friction2: Fixed::of(900_000),
                turning_speed_dependence: Fixed::of(30_000),
                backwards_mult: Fixed::of(300_000),
                boost_mult: Fixed::of(5_000_000),
                rest_turn_speed: Fixed::of(20_000),
                max_turn_speed: Fixed::of(50_000),
                throttle: Fixed::of(50_000_000),
                time_between_boosts: Fixed::of(2_000_000),
                bottom_bounce: Fixed::of(2_000_000),
            }),
    {
        MovementParams {
            friction1: Fixed::new(900_000),
            friction2: Fixed::new(900_000),
            turning_speed_dependence: Fixed::new(30_000),
            backwards_mult: Fixed::new(300_000),
            boost_mult: Fixed::new(5_000_000),
            rest_turn_speed: Fixed::new(20_000),
            max_turn_speed: Fixed::new(50_000),
            throttle: Fixed::new(50_000_000),
            time_between_boosts: Fixed::new(2_000_000),
            bottom_bounce: Fixed::new(2_000_000),
        }
    }
}

impl MovementParams {
    /// The parameters of the first stage.
    pub open spec fn stage1_params() -> MovementParams {
        MovementParams {
                friction1: Fixed::of(200_000),
                friction2: Fixed::of(200_000),
                turning_speed_dependence: Fixed::of(30_000),
                backwards_mult: Fixed::of(300_000),
                boost_mult: Fixed::of(5_000_000),
                rest_turn_speed: Fixed::of(20_000),
                max_turn_speed: Fixed::of(50_000),
                throttle: Fixed::of(150_000_000),
                time_between_boosts: Fixed::of(1_000_000),
                bottom_bounce: Fixed::of(10_000_000),
            }
    }

    /// The parameters of the first stage.
    pub fn stage1() -> (r: MovementParams)
        ensures
            r == MovementParams::stage1_params(),
    {
        MovementParams {
            friction1: Fixed::new(200_000),
            friction2: Fixed::new(200_000),
            turning_speed_dependence: Fixed::new(30_000),
            backwards_mult: Fixed::new(300_000),
            boost_mult: Fixed::new(5_000_000),
            rest_turn_speed: Fixed::new(20_000),
            max_turn_speed: Fixed::new(50_000),
            throttle: Fixed::new(150_000_000),
            time_between_boosts: Fixed::new(1_000_000),
            bottom_bounce: Fixed::new(10_000_000),
        }
    }

    /// The parameters of the second stage.
    pub open spec fn stage2_params() -> MovementParams {
        MovementParams {
                friction1: Fixed::of(100_000),
                friction2: Fixed::of(130_000),
                turning_speed_dependence: Fixed::of(30_000),
                backwards_mult: Fixed::of(300_000),
                boost_mult: Fixed::of(13_000_000),
                rest_turn_speed: Fixed::of(13_000),
                max_turn_speed: Fixed::of(50_000),
                throttle: Fixed::of(200_000_000),
                time_between_boosts: Fixed::of(500_000),
                bottom_bounce: Fixed::of(10_000_000),
            }
    }

    /// The parameters of the second stage.
    pub fn stage2() -> (r: MovementParams)
        ensures
            r == MovementParams::stage2_params(),
    {
        MovementParams {
            friction1: Fixed::new(100_000),
            friction2: Fixed::new(130_000),
            turning_speed_dependence: Fixed::new(30_000),
            backwards_mult: Fixed::new(300_000),
            boost_mult: Fixed::new(13_000_000),
            rest_turn_speed: Fixed::new(13_000),
            max_turn_speed: Fixed::new(50_000),
            throttle: Fixed::new(200_000_000),
            time_between_boosts: Fixed::new(500_000),
            bottom_bounce: Fixed::new(10_000_000),
        }
    }

    /// The parameters of the third stage.
    pub open spec fn stage3_params() -> MovementParams {
        MovementParams {
                friction1: Fixed::of(90_000),
                friction2: Fixed::of(13_000),
                turning_speed_dependence: Fixed::of(50_000),
                backwards_mult: Fixed::of(300_000),
                boost_mult: Fixed::of(5_000_000),
                rest_turn_speed: Fixed::of(20_000),
                max_turn_speed: Fixed::of(100_000),
                throttle: Fixed::of(1_500_000_000),
                time_between_boosts: Fixed::of(250_000),
                bottom_bounce: Fixed::of(50_000_000),
            }
    }

    /// The parameters of the third stage.
    pub fn stage3() -> (r: MovementParams)
        ensures
            r == MovementParams::stage3_params(),
    {
        MovementParams {
            friction1: Fixed::new(90_000),
            friction2: Fixed::new(13_000),
            turning_speed_dependence: Fixed::new(50_000),
            backwards_mult: Fixed::new(300_000),
            boost_mult: Fixed::new(5_000_000),
            rest_turn_speed: Fixed::new(20_000),
            max_turn_speed: Fixed::new(100_000),
            throttle: Fixed::new(1_500_000_000),
            time_between_boosts: Fixed::new(250_000),
            bottom_bounce: Fixed::new(50_000_000),
        }
    }
}

/// How an agent that looks along `look_at_dir` turns toward a point that
/// lies `to_target` away.
pub fn steer(look_at_dir: Vec2, to_target: Vec2) -> (r: Option<Turning>)
    ensures
        r == steering(look_at_dir, to_target),
{
    if to_target.is_zero() {
        return None;
    }
    let look_at_90: Vec2 = look_at_dir.perp();
    let side: Fixed = look_at_90.dot(to_target.normalize());
    if side.raw < 0 {
        Some(Turning::Right(side.neg()))
    } else {
        Some(Turning::Left(side))
    }
}

/// The angle by which an agent turns in one tick.
pub fn compute_turn_angle(turning: Turning, speed: Fixed, boost: Fixed, params: &MovementParams) -> (r:
    Fixed)
    ensures
        r == turn_angle(turning, speed, boost, *params),
{
    let speed_turn: Fixed = speed.times(params.turning_speed_dependence).times(
        Fixed::one().minus(boost),
    );
    let rate: Fixed = params.rest_turn_speed.plus(
        speed_turn.clamp(Fixed::zero(), params.max_turn_speed.minus(params.rest_turn_speed)),
    );
    match turning {
        Turning::Left(delta) => soften(delta).times(rate),
        Turning::Right(delta) => soften(delta).times(rate).neg(),
        Turning::Straight => Fixed::zero(),
    }
}

/// The measure of a turn, softened.
pub fn soften(delta: Fixed) -> (r: Fixed)
    ensures
        r == softened(delta),
{
    if delta.raw < SOFT_ANGULAR {
        delta.over(Fixed::new(SOFT_ANGULAR))
    } else {
        Fixed::one()
    }
}

/// The drag on an agent that made the step `step` in the last tick.
pub fn compute_drag(step: Vec2, params: &MovementParams) -> (r: Vec2)
    ensures
        r == drag(step, *params),
{
    let length: Fixed = step.length();
    let dir: Vec2 = if step.is_zero() {
        Vec2::zero()
    } else {
        step.normalize()
    };
    let linear: Vec2 = dir.scale(params.friction1.neg().times(length));
    let square: Vec2 = dir.scale(params.friction2.times(length.times(length)));
    linear.minus(square)
}

/// The point `p` brought back into the world for an agent of radius
/// `radius`.
pub fn keep_in_world(p: Vec2, radius: Fixed, bottom_bounce: Fixed) -> (r: Vec2)
    ensures
        r == kept_in_world(p, radius, bottom_bounce),
        has_room(radius, bottom_bounce) ==> in_world(r, radius),
{
    let mut next: Vec2 = p;
    if next.y.raw < radius.raw {
        next.y = radius.plus(bottom_bounce);
    }
    if next.x.raw < radius.raw {
        next.x = radius.plus(Fixed::new(WALL_BOUNCE));
    }
    let right: Fixed = Fixed::new(LEVEL_WIDTH).minus(radius);
    if next.x.raw > right.raw {
        next.x = right.minus(Fixed::new(WALL_BOUNCE));
    }
    next
}

/// The heading `angle` after a turn by `turn`, kept within a full turn.
pub fn turn_by(angle: Fixed, turn: Fixed) -> (r: Fixed)
    ensures
        r == turned(angle, turn),
{
    let n: i64 = angle.plus(turn).raw;
    let q: i64 = n / FULL_TURN;
    assert(q == quot(n as int, FULL_TURN as int));
    assert(-LIMIT <= q * FULL_TURN <= LIMIT && -FULL_TURN < n - q * FULL_TURN < FULL_TURN)
        by (nonlinear_arith)
        requires
            -LIMIT <= n <= LIMIT,
            q == quot(n as int, FULL_TURN as int),
            FULL_TURN == 6_283_185,
    ;
    Fixed { raw: n - q * FULL_TURN }
}

impl Agent {
    /// Sets the turn and the acceleration toward `target`; an agent that
    /// stands on it stays as it is.
    pub fn steer_towards(&mut self, target: Vec2)
        ensures
            *final(self) == steered(*old(self), target),
    {
        match steer(self.look_at_dir, target.minus(self.position)) {
            Some(turning) => {
                self.turning = turning;
                self.acc = Acceleration::Forward;
            },
            None => {},
        }
    }

    /// Takes the player's controls of one tick at `time`.
    pub fn apply_controls(&mut self, controls: &Controls, time: Fixed, params: &MovementParams)
        ensures
            *final(self) == controlled(*old(self), *controls, time, *params),
    {
        let keyed: bool = !matches!(controls.accelerate, Acceleration::Idle) || !matches!(
            controls.turn,
            Turn::Straight
        );
        self.acc = controls.accelerate;
        self.turning = match controls.turn {
            Turn::Left => Turning::Left(Fixed::one()),
            Turn::Right => Turning::Right(Fixed::one()),
            Turn::Straight => Turning::Straight,
        };
        if keyed {
            self.main_char_target_pos = None;
        }
        if controls.boost_requested && time.minus(self.boost_time).raw
            > params.time_between_boosts.raw {
            self.boost = true;
            self.boost_time = time;
            self.main_char_target_pos = None;
        }
        match controls.steer_target {
            Some(p) => {
                self.main_char_target_pos = Some(p);
            },
            None => {},
        }
        match self.main_char_target_pos {
            Some(p) => {
                self.steer_towards(p);
            },
            None => {},
        }
    }

    /// What drives this agent when the player steers it.
    pub fn drive_of_player(&self, params: &MovementParams) -> (r: Drive)
        ensures
            r == player_drive(*self, *params),
    {
        Drive {
            throttle: params.throttle,
            forward_gain: self.energy,
            boost_gain: params.boost_mult.plus(self.mass.over(Fixed::new(BOOST_MASS_UNIT))).times(
                self.energy,
            ),
            downcurrent: Fixed::new(DOWNCURRENT_BASE).plus(
                self.position.y.over(Fixed::new(LEVEL_HEIGHT)).times(Fixed::new(DOWNCURRENT_RISE)),
            ),
        }
    }

    /// What drives this agent when the player does not steer it.
    pub fn drive_of_npc(&self, params: &MovementParams) -> (r: Drive)
        ensures
            r == npc_drive(*self, *params),
    {
        Drive {
            throttle: if self.is_guardian {
                params.throttle.times(Fixed::new(GUARDIAN_THROTTLE))
            } else {
                params.throttle
            },
            forward_gain: self.energy,
            boost_gain: params.boost_mult,
            downcurrent: Fixed::zero(),
        }
    }

    /// One tick of motion of length `dt` at `time`. An agent that has room
    /// in the world is in it afterwards.
    pub fn integrate(&mut self, params: &MovementParams, drive: &Drive, dt: Fixed, time: Fixed)
        ensures
            *final(self) == moved(*old(self), *params, *drive, dt, time),
            has_room(old(self).radius, params.bottom_bounce) ==> in_world(
                final(self).position,
                final(self).radius,
            ),
            final(self).speed@ >= 0,
            old(self).wf() ==> final(self).wf(),
    {
        self.compute_self_velocity();
        let step: Vec2 = self.position.minus(self.last_position);
        let pace: Fixed = step.length();
        let forward: Vec2 = self.look_at_dir;
        let mut push: Vec2 = match self.acc {
            Acceleration::Forward => forward.scale(drive.forward_gain),
            Acceleration::Backward => forward.neg().scale(params.backwards_mult),
            Acceleration::Idle => Vec2::zero(),
        };
        let mut boost: Fixed = Fixed::zero();
        if self.boost {
            boost = boost_impulse(time.minus(self.boost_time));
            push = push.scale(Fixed::one().plus(boost.times(drive.boost_gain)));
        }
        let turn: Fixed = compute_turn_angle(self.turning, pace, boost, params);
        let pull: Vec2 = Vec2::new(Fixed::zero(), drive.downcurrent.neg());
        let acc: Vec2 = push.plus(compute_drag(step, params).plus(pull));
        let gained: Vec2 = acc.scale(dt).scale(dt).scale(drive.throttle);
        let aimed: Vec2 = self.position.plus(step.plus(gained));
        let next: Vec2 = keep_in_world(aimed, self.radius, params.bottom_bounce);
        self.speed = next.minus(self.position).length();
        self.last_position = self.position;
        self.position = next;
        self.look_at_angle = turn_by(self.look_at_angle, turn);
        proof {
            let made = vec_minus(next, old(self).position);
            crate::fixed::lemma_isqrt_nonnegative(norm2(made.x@, made.y@));
        }
    }
}

/// One tick of motion, of length `dt` at `time`, for the agent that the
/// player steers; the others stay as they are. Nothing moves in a world
/// without that agent.
pub fn main_char_movement(game: &mut Game, time: Fixed, dt: Fixed, params: &MovementParams)
    ensures
        final(game).agents@.len() == old(game).agents@.len(),
        forall|i: int|
            0 <= i < old(game).agents@.len() ==> #[trigger] final(game).agents@[i] == (if Some(i)
                == crate::game::lookup(old(game).agents@, MAIN_CHARACTER_ID) {
                moved(
                    old(game).agents@[i],
                    *params,
                    player_drive(old(game).agents@[i], *params),
                    dt,
                    time,
                )
            } else {
                old(game).agents@[i]
            }),
        old(game).wf() ==> final(game).wf(),
        final(game).time == old(game).time,
        final(game).game_stage == old(game).game_stage,
        final(game).foods == old(game).foods,
        final(game).won == old(game).won,
{
    match crate::game::find_agent(&game.agents, MAIN_CHARACTER_ID) {
        Some(i) => {
            let drive: Drive = game.agents[i].drive_of_player(params);
            game.agents[i].integrate(params, &drive, dt, time);
            proof {
                assert(crate::game::agent_ids(game.agents@) =~= crate::game::agent_ids(
                    old(game).agents@,
                ));
            }
        },
        None => {},
    }
}

/// One tick of motion, of length `dt` at `time`, for every agent but the
/// player's: each heads for its target and moves.
pub fn agents_movement(game: &mut Game, time: Fixed, dt: Fixed, params: &MovementParams)
    ensures
        final(game).agents@.len() == old(game).agents@.len(),
        forall|i: int|
            0 <= i < old(game).agents@.len() ==> #[trigger] final(game).agents@[i] == (if old(
                game,
            ).agents@[i].id == MAIN_CHARACTER_ID {
                old(game).agents@[i]
            } else {
                let headed = steered(old(game).agents@[i], old(game).agents@[i].target_position);
                moved(headed, *params, npc_drive(headed, *params), dt, time)
            }),
        old(game).wf() ==> final(game).wf(),
        final(game).time == old(game).time,
        final(game).game_stage == old(game).game_stage,
        final(game).foods == old(game).foods,
        final(game).won == old(game).won,
{
    let n: usize = game.agents.len();
    let mut i: usize = 0;
    while i < n
        invariant
            0 <= i <= n,
            n == game.agents@.len(),
            n == old(game).agents@.len(),
            forall|j: int| i <= j < n ==> #[trigger] game.agents@[j] == old(game).agents@[j],
            forall|j: int|
                0 <= j < i ==> #[trigger] game.agents@[j] == (if old(game).agents@[j].id
                    == MAIN_CHARACTER_ID {
                    old(game).agents@[j]
                } else {
                    let headed = steered(old(game).agents@[j], old(game).agents@[j].target_position);
                    moved(headed, *params, npc_drive(headed, *params), dt, time)
                }),
            forall|j: int|
                0 <= j < n ==> (#[trigger] game.agents@[j]).id == old(game).agents@[j].id && (old(
                    game,
                ).agents@[j].wf() ==> game.agents@[j].wf()),
            game.time == old(game).time,
            game.game_stage == old(game).game_stage,
            game.foods == old(game).foods,
            game.won == old(game).won,
        decreases n - i,
    {
        if game.agents[i].id != MAIN_CHARACTER_ID {
            let target: Vec2 = game.agents[i].target_position;
            game.agents[i].steer_towards(target);
            let drive: Drive = game.agents[i].drive_of_npc(params);
            game.agents[i].integrate(params, &drive, dt, time);
        }
        i = i + 1;
    }
    proof {
        assert(crate::game::agent_ids(game.agents@) =~= crate::game::agent_ids(old(game).agents@));
    }
}

} // verus!
