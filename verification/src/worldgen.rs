//! The making of a world: races and their traits, agents of each stage, the
//! guardians at their posts, and the food.
//!
//! What is drawn by chance is drawn here; what is made of the draws is made
//! by functions that take them as arguments.

use crate::agent::{
    radius_of, sight_range_of, Acceleration, Agent, AgentGoalStatus, Feeling, Goal, Race,
    RaceBottom, RaceMid, RaceTop, Sensors, Social, SocialAttributes, Turning, ATOM_MULT,
    MAIN_CHARACTER_ID, MASS_MULT, SIGHT_MULT,
};
use crate::fixed::{mul_raw, Fixed, ONE};
use crate::game::{
    agent_ids, find_agent, lookup, Food, Game, GameStage, BOTTOM_LIMIT_X_MAX, BOTTOM_LIMIT_X_MIN,
    BOTTOM_STAGE_LIMIT, LEVEL_HEIGHT, LEVEL_WIDTH, MID_STAGE_LIMIT, NUM_AGENTS, NUM_FOODS,
    TOP_STAGE_LIMIT,
};
use crate::random::{random_between, random_id, random_in_range, random_unit};
use crate::vec2::Vec2;
use vstd::prelude::*;

verus! {

/// Raw aggressivity that gives an agent even odds of searching for a fight.
pub const AGGRO_ODDS: i64 = 250_000;

/// Raw factor from altruism to the odds of searching for a team.
pub const TEAM_ODDS: i64 = 300_000;

/// Raw odds of searching for food.
pub const FOOD_ODDS: i64 = 500_000;

/// A range to draw a number from: `low` and up to, but without, `high`.
#[derive(Clone, Copy, Debug, PartialEq, Eq, Structural)]
pub struct Span {
    pub low: Fixed,
    pub high: Fixed,
}

/// The ranges from which the traits of a race are drawn.
#[derive(Clone, Copy, Debug, PartialEq, Eq, Structural)]
pub struct RaceRanges {
    pub aggressivity: Span,
    pub altruism: Span,
    pub collectioneur: Span,
    pub memory_time: Span,
}

/// The traits of one agent, as its race gives them.
#[derive(Clone, Copy, Debug, PartialEq, Eq, Structural)]
pub struct RaceAttributes {
    pub social_attributes: SocialAttributes,
    pub memory_time: Fixed,
}

/// Where a stage puts its agents and how heavy it makes them: the shares of
/// the width and of the height of the world, and the mass.
#[derive(Clone, Copy, Debug, PartialEq, Eq, Structural)]
pub struct StageRanges {
    pub x: Span,
    pub y: Span,
    pub mass: Span,
}

impl Span {
    /// The range from the raw value `low` up to the raw value `high`.
    pub open spec fn of(low: int, high: int) -> Span {
        Span { low: Fixed::of(low), high: Fixed::of(high) }
    }

    /// `value` lies in the range.
    pub open spec fn holds(self, value: Fixed) -> bool {
        self.low@ <= value@ < self.high@
    }

    /// The range from the raw value `low` up to the raw value `high`.
    pub fn new(low: i64, high: i64) -> (r: Span)
        ensures
            r == Span::of(low as int, high as int),
    {
        Span { low: Fixed::new(low), high: Fixed::new(high) }
    }

    /// A number drawn from the range; its low end where the range is empty.
    pub fn draw(&self) -> (r: Fixed)
        ensures
            self.low@ < self.high@ ==> self.holds(r),
            self.low@ >= self.high@ ==> r == self.low,
    {
        random_between(self.low, self.high)
    }
}

impl Race {
    /// The stage that the race lives in.
    pub open spec fn stage(self) -> GameStage {
        match self {
            Race::Bottom(_) => GameStage::Bottom,
            Race::Mid(_) => GameStage::Mid,
            Race::Top(_) => GameStage::Top,
        }
    }

    /// The ranges from which the traits of the race are drawn.
    pub open spec fn ranges(self) -> RaceRanges {
        match self {
            Race::Bottom(RaceBottom::Ameoba) => RaceRanges {
                aggressivity: Span::of(0, 400_000),
                altruism: Span::of(0, 400_000),
                collectioneur: Span::of(0, 500_000),
                memory_time: Span::of(0, 500_000),
            },
            Race::Bottom(RaceBottom::StratolopusArealus) => RaceRanges {
                aggressivity: Span::of(200_000, 300_000),
                altruism: Span::of(300_000, 500_000),
                collectioneur: Span::of(0, 500_000),
                memory_time: Span::of(500_000, 1_500_000),
            },
            Race::Mid(RaceMid::Piko) => RaceRanges {
                aggressivity: Span::of(500_000, 700_000),
                altruism: Span::of(0, 400_000),
                collectioneur: Span::of(0, 500_000),
                memory_time: Span::of(2_000_000, 4_000_000),
            },
            Race::Mid(RaceMid::Seahorse) => RaceRanges {
                aggressivity: Span::of(0, 200_000),
                altruism: Span::of(0, 500_000),
                collectioneur: Span::of(0, 500_000),
                memory_time: Span::of(3_000_000, 3_500_000),
            },
            Race::Top(RaceTop::Squid) => RaceRanges {
                aggressivity: Span::of(100_000, 300_000),
                altruism: Span::of(400_000, 900_000),
                collectioneur: Span::of(0, 500_000),
                memory_time: Span::of(3_000_000, 5_000_000),
            },
            Race::Top(RaceTop::Whale) => RaceRanges {
                aggressivity: Span::of(100_000, 900_000),
                altruism: Span::of(600_000, 900_000),
                collectioneur: Span::of(0, 500_000),
                memory_time: Span::of(5_000_000, 10_000_000),
            },
        }
    }

    /// The race with the number `pick` among those of `stage`: the first for
    /// zero, the second for anything else.
    pub open spec fn pick(stage: GameStage, pick: int) -> Race {
        match stage {
            GameStage::Bottom => Race::Bottom(
                if pick == 0 {
                    RaceBottom::Ameoba
                } else {
                    RaceBottom::StratolopusArealus
                },
            ),
            GameStage::Mid => Race::Mid(
                if pick == 0 {
                    RaceMid::Piko
                } else {
                    RaceMid::Seahorse
                },
            ),
            GameStage::Top => Race::Top(
                if pick == 0 {
                    RaceTop::Squid
                } else {
                    RaceTop::Whale
                },
            ),
        }
    }

    /// The race with the number `pick` among those of `stage`.
    pub fn from_pick(stage: &GameStage, pick: i64) -> (r: Race)
        ensures
            r == Race::pick(*stage, pick as int),
            r.stage() == *stage,
    {
        match stage {
            GameStage::Bottom => Race::Bottom(
                if pick == 0 {
                    RaceBottom::Ameoba
                } else {
                    RaceBottom::StratolopusArealus
                },
            ),
            GameStage::Mid => Race::Mid(
                if pick == 0 {
                    RaceMid::Piko
                } else {
                    RaceMid::Seahorse
                },
            ),
            GameStage::Top => Race::Top(
                if pick == 0 {
                    RaceTop::Squid
                } else {
                    RaceTop::Whale
                },
            ),
        }
    }

    /// A race of `stage`, drawn from the two that live there.
    pub fn random_race(stage: &GameStage) -> (r: Race)
        ensures
            r.stage() == *stage,
    {
        Race::from_pick(stage, random_in_range(0, 2))
    }

    /// The ranges from which the traits of the race are drawn.
    pub fn attribute_ranges(&self) -> (r: RaceRanges)
        ensures
            r == self.ranges(),
    {
        match self {
            Race::Bottom(RaceBottom::Ameoba) => RaceRanges {
                aggressivity: Span::new(0, 400_000),
                altruism: Span::new(0, 400_000),
                collectioneur: Span::new(0, 500_000),
                memory_time: Span::new(0, 500_000),
            },
            Race::Bottom(RaceBottom::StratolopusArealus) => RaceRanges {
                aggressivity: Span::new(200_000, 300_000),
                altruism: Span::new(300_000, 500_000),
                collectioneur: Span::new(0, 500_000),
                memory_time: Span::new(500_000, 1_500_000),
            },
            Race::Mid(RaceMid::Piko) => RaceRanges {
                aggressivity: Span::new(500_000, 700_000),
                altruism: Span::new(0, 400_000),
                collectioneur: Span::new(0, 500_000),
                memory_time: Span::new(2_000_000, 4_000_000),
            },
            Race::Mid(RaceMid::Seahorse) => RaceRanges {
                aggressivity: Span::new(0, 200_000),
                altruism: Span::new(0, 500_000),
                collectioneur: Span::new(0, 500_000),
                memory_time: Span::new(3_000_000, 3_500_000),
            },
            Race::Top(RaceTop::Squid) => RaceRanges {
                aggressivity: Span::new(100_000, 300_000),
                altruism: Span::new(400_000, 900_000),
                collectioneur: Span::new(0, 500_000),
                memory_time: Span::new(3_000_000, 5_000_000),
            },
            Race::Top(RaceTop::Whale) => RaceRanges {
                aggressivity: Span::new(100_000, 900_000),
                altruism: Span::new(600_000, 900_000),
                collectioneur: Span::new(0, 500_000),
                memory_time: Span::new(5_000_000, 10_000_000),
            },
        }
    }

    /// Traits for one agent of the race, each drawn from the race's range
    /// for it.
    pub fn gen_attributes(&self) -> (r: RaceAttributes)
        ensures
            self.ranges().aggressivity.holds(r.social_attributes.aggressivity),
            self.ranges().altruism.holds(r.social_attributes.altruism),
            self.ranges().collectioneur.holds(r.social_attributes.collectioneur),
            self.ranges().memory_time.holds(r.memory_time),
            r.memory_time@ >= 0,
    {
        let ranges: RaceRanges = self.attribute_ranges();
        RaceAttributes {
            social_attributes: SocialAttributes {
                aggressivity: ranges.aggressivity.draw(),
                altruism: ranges.altruism.draw(),
                collectioneur: ranges.collectioneur.draw(),
            },
            memory_time: ranges.memory_time.draw(),
        }
    }
}

impl Feeling {
    /// The feeling with the number `pick`.
    pub open spec fn pick(pick: int) -> Feeling {
        if pick == 0 {
            Feeling::Neutral
        } else if pick == 1 {
            Feeling::Happy
        } else if pick == 2 {
            Feeling::Sadness
        } else {
            Feeling::Angry
        }
    }

    /// The feeling with the number `pick`.
    pub fn from_pick(pick: i64) -> (r: Feeling)
        ensures
            r == Feeling::pick(pick as int),
    {
        if pick == 0 {
            Feeling::Neutral
        } else if pick == 1 {
            Feeling::Happy
        } else if pick == 2 {
            Feeling::Sadness
        } else {
            Feeling::Angry
        }
    }

    /// A feeling, drawn from the four there are.
    pub fn random_feeling() -> (r: Feeling) {
        Feeling::from_pick(random_in_range(0, 4))
    }
}

impl GameStage {
    /// Where the stage puts its agents and how heavy it makes them.
    pub open spec fn ranges(self) -> StageRanges {
        match self {
            GameStage::Bottom => StageRanges {
                x: Span::of(BOTTOM_LIMIT_X_MIN as int, BOTTOM_LIMIT_X_MAX as int),
                y: Span::of(0, BOTTOM_STAGE_LIMIT as int),
                mass: Span::of(20_000, 50_000),
            },
            GameStage::Mid => StageRanges {
                x: Span::of(0, ONE as int),
                y: Span::of(BOTTOM_STAGE_LIMIT as int, MID_STAGE_LIMIT as int),
                mass: Span::of(50_000, 110_000),
            },
            GameStage::Top => StageRanges {
                x: Span::of(20_000, TOP_STAGE_LIMIT as int),
                y: Span::of(MID_STAGE_LIMIT as int, TOP_STAGE_LIMIT as int),
                mass: Span::of(110_000, 200_000),
            },
        }
    }

    /// Where the stage puts its agents and how heavy it makes them.
    pub fn spawn_ranges(&self) -> (r: StageRanges)
        ensures
            r == self.ranges(),
    {
        match self {
            GameStage::Bottom => StageRanges {
                x: Span::new(BOTTOM_LIMIT_X_MIN, BOTTOM_LIMIT_X_MAX),
                y: Span::new(0, BOTTOM_STAGE_LIMIT),
                mass: Span::new(20_000, 50_000),
            },
            GameStage::Mid => StageRanges {
                x: Span::new(0, ONE),
                y: Span::new(BOTTOM_STAGE_LIMIT, MID_STAGE_LIMIT),
                mass: Span::new(50_000, 110_000),
            },
            GameStage::Top => StageRanges {
                x: Span::new(20_000, TOP_STAGE_LIMIT),
                y: Span::new(MID_STAGE_LIMIT, TOP_STAGE_LIMIT),
                mass: Span::new(110_000, 200_000),
            },
        }
    }
}

/// The agent that is made of the given id, place, mass, race, traits and
/// heading: at rest where it is, full of energy, with the radius and the
/// ranges that go with its mass, without a body, a memory or a goal. The unit
/// vector of its heading is still to be given; until then it is zero.
pub open spec fn spawned(
    id: u32,
    position: Vec2,
    mass: Fixed,
    race: Race,
    attributes: RaceAttributes,
    look_at_angle: Fixed,
    is_guardian: bool,
    guardian_pos: Vec2,
    agent_sight: Vec<crate::agent::AgentSight>,
    food_sight: Vec<crate::agent::FoodSight>,
    body: Vec<crate::agent::Body>,
) -> Agent {
    Agent {
        id,
        last_agent_hit: 0,
        position,
        last_position: position,
        speed: Fixed::of(0),
        look_at_angle,
        look_at_dir: Vec2::origin(),
        velocity: Vec2::origin(),
        target_position: position,
        main_char_target_pos: None,
        radius: Fixed::of(radius_of(mass@)),
        body,
        just_collided: false,
        other_collider_mass: Fixed::of(0),
        last_collision_time: Fixed::of(0),
        boost_time: Fixed::of(0),
        boost: false,
        turning: Turning::Straight,
        acc: Acceleration::Forward,
        race,
        social: Social { feeling: Feeling::Neutral, social_attributes: attributes.social_attributes },
        energy: Fixed::of(ONE as int),
        mass,
        previous_mass: mass,
        power_usage: Fixed::of(0),
        memory_time: attributes.memory_time,
        goal: Goal::Rest,
        goal_time: Fixed::of(0),
        goal_status: AgentGoalStatus::Unset,
        sensors: Sensors {
            hearing_range: Fixed::of(sight_range_of(radius_of(mass@))),
            sight_range: Fixed::of(sight_range_of(radius_of(mass@))),
            agent_sight,
            food_sight,
        },
        entity: None,
        is_guardian,
        guardian_pos,
    }
}

impl Agent {
    /// The agent that is made of the given id, place, mass, race, traits and
    /// heading; see [`spawned`].
    pub fn spawn(
        id: u32,
        position: Vec2,
        mass: Fixed,
        race: Race,
        attributes: RaceAttributes,
        look_at_angle: Fixed,
        is_guardian: bool,
        guardian_pos: Vec2,
    ) -> (r: Agent)
        ensures
            r == spawned(
                id,
                position,
                mass,
                race,
                attributes,
                look_at_angle,
                is_guardian,
                guardian_pos,
                r.sensors.agent_sight,
                r.sensors.food_sight,
                r.body,
            ),
            r.sensors.agent_sight@.len() == 0,
            r.sensors.food_sight@.len() == 0,
            r.body@.len() == 0,
            mass@ > 0 ==> r.wf(),
    {
        let radius: Fixed = mass.times(Fixed::new(MASS_MULT)).times(Fixed::new(ATOM_MULT));
        let sight_range: Fixed = radius.times(Fixed::new(SIGHT_MULT));
        Agent {
            id,
            last_agent_hit: 0,
            position,
            last_position: position,
            speed: Fixed::zero(),
            look_at_angle,
            look_at_dir: Vec2::zero(),
            velocity: Vec2::zero(),
            target_position: position,
            main_char_target_pos: None,
            radius,
            body: Vec::new(),
            just_collided: false,
            other_collider_mass: Fixed::zero(),
            last_collision_time: Fixed::zero(),
            boost_time: Fixed::zero(),
            boost: false,
            turning: Turning::Straight,
            acc: Acceleration::Forward,
            race,
            social: Social {
                feeling: Feeling::Neutral,
                social_attributes: attributes.social_attributes,
            },
            energy: Fixed::one(),
            mass,
            previous_mass: mass,
            power_usage: Fixed::zero(),
            memory_time: attributes.memory_time,
            goal: Goal::Rest,
            goal_time: Fixed::zero(),
            goal_status: AgentGoalStatus::Unset,
            sensors: Sensors::new(sight_range, sight_range),
            entity: None,
            is_guardian,
            guardian_pos,
        }
    }

    /// An agent of `stage` with the id `id`: its place and its mass are drawn
    /// from the ranges of the stage, its race from those of the stage, its
    /// traits from the ranges of the race, and its heading from a full turn.
    /// The agents of the top stage are guardians.
    pub fn gen_random(stage: &GameStage, id: u32) -> (r: Agent)
        ensures
            r.id == id,
            r.wf(),
            r.race.stage() == *stage,
            r.is_guardian == (*stage is Top),
            stage.ranges().mass.holds(r.mass),
            0 <= r.position.x@ <= LEVEL_WIDTH,
            0 <= r.position.y@ <= LEVEL_HEIGHT,
            r.last_position == r.position,
            r.radius@ == radius_of(r.mass@),
            r.sensors.sight_range@ == sight_range_of(r.radius@),
            r.energy@ == ONE,
            r.memory_time@ >= 0,
            r.race.ranges().memory_time.holds(r.memory_time),
            0 <= r.look_at_angle@ < 6_300_000,
            r.goal == Goal::Rest,
            r.sensors.agent_sight@.len() == 0,
            r.body@.len() == 0,
    {
        let ranges: StageRanges = stage.spawn_ranges();
        let share_x: Fixed = ranges.x.draw();
        let share_y: Fixed = ranges.y.draw();
        let position: Vec2 = Vec2::new(
            share_x.times(Fixed::new(LEVEL_WIDTH)),
            share_y.times(Fixed::new(LEVEL_HEIGHT)),
        );
        proof {
            lemma_share_of(share_x@, LEVEL_WIDTH as int);
            lemma_share_of(share_y@, LEVEL_HEIGHT as int);
        }
        let mass: Fixed = ranges.mass.draw();
        let race: Race = Race::random_race(stage);
        let attributes: RaceAttributes = race.gen_attributes();
        let look_at_angle: Fixed = Span::new(0, 6_300_000).draw();
        let is_guardian: bool = matches!(stage, GameStage::Top);
        Agent::spawn(id, position, mass, race, attributes, look_at_angle, is_guardian, Vec2::zero())
    }

    /// A guardian with the id `id` that has its post at `pos` and stands
    /// there: of a race of the top stage, and as heavy as the agents there.
    pub fn gen_guardian(pos: Vec2, id: u32) -> (r: Agent)
        ensures
            r.id == id,
            r.wf(),
            r.is_guardian,
            r.position == pos,
            r.guardian_pos == pos,
            r.last_position == pos,
            r.race.stage() == GameStage::Top,
            GameStage::Top.ranges().mass.holds(r.mass),
            r.radius@ == radius_of(r.mass@),
            r.sensors.sight_range@ == sight_range_of(r.radius@),
            r.energy@ == ONE,
            r.memory_time@ >= 0,
            r.goal == Goal::Rest,
            r.sensors.agent_sight@.len() == 0,
            r.body@.len() == 0,
    {
        let mass: Fixed = Span::new(110_000, 200_000).draw();
        let race: Race = Race::random_race(&GameStage::Top);
        let attributes: RaceAttributes = race.gen_attributes();
        let look_at_angle: Fixed = Span::new(0, 6_300_000).draw();
        Agent::spawn(id, pos, mass, race, attributes, look_at_angle, true, pos)
    }

    /// Gives the agent the unit vector of its heading.
    pub fn set_look_at_dir(&mut self, look_at_dir: Vec2)
        ensures
            *final(self) == (Agent { look_at_dir, ..*old(self) }),
    {
        self.look_at_dir = look_at_dir;
    }

    /// The goal that an agent with the traits `social` picks on three draws:
    /// to search for a fight on a first draw below its aggressivity's odds,
    /// else for a team on a second below its altruism's, else for food on a
    /// third below even odds, else none.
    pub open spec fn goal_drawn(
        social: SocialAttributes,
        fight: Fixed,
        team: Fixed,
        food: Fixed,
    ) -> Goal {
        if fight@ < mul_raw(social.aggressivity@, AGGRO_ODDS as int) {
            Goal::SearchForAFight
        } else if team@ < mul_raw(social.altruism@, TEAM_ODDS as int) {
            Goal::SearchTeam
        } else if food@ < FOOD_ODDS {
            Goal::SearchForFood
        } else {
            Goal::Rest
        }
    }

    /// Takes at `time` the goal that the three draws give; see
    /// [`Agent::goal_drawn`].
    pub fn find_new_goal_with(&mut self, time: Fixed, fight: Fixed, team: Fixed, food: Fixed)
        ensures
            *final(self) == (Agent {
                goal: Agent::goal_drawn(old(self).social.social_attributes, fight, team, food),
                goal_time: time,
                ..*old(self)
            }),
    {
        self.goal_time = time;
        let prob_aggro: Fixed = self.social.social_attributes.aggressivity.times(
            Fixed::new(AGGRO_ODDS),
        );
        let prob_altruism: Fixed = self.social.social_attributes.altruism.times(
            Fixed::new(TEAM_ODDS),
        );
        if fight.raw < prob_aggro.raw {
            self.goal = Goal::SearchForAFight;
        } else if team.raw < prob_altruism.raw {
            self.goal = Goal::SearchTeam;
        } else if food.raw < FOOD_ODDS {
            self.goal = Goal::SearchForFood;
        } else {
            self.goal = Goal::Rest;
        }
    }

    /// Takes a new goal at `time`, by chance and by its traits: to search
    /// for a fight, for a team or for food, or none.
    pub fn find_new_goal(&mut self, time: Fixed)
        ensures
            final(self).goal == Goal::SearchForAFight || final(self).goal == Goal::SearchTeam
                || final(self).goal == Goal::SearchForFood || final(self).goal == Goal::Rest,
            *final(self) == (Agent { goal: final(self).goal, goal_time: time, ..*old(self) }),
    {
        let fight: Fixed = random_unit();
        let team: Fixed = random_unit();
        let food: Fixed = random_unit();
        self.find_new_goal_with(time, fight, team, food);
    }
}

/// A share of a length is a part of it.
pub proof fn lemma_share_of(share: int, length: int)
    requires
        0 <= share <= ONE,
        0 <= length <= crate::fixed::LIMIT,
    ensures
        0 <= mul_raw(share, length) <= length,
{
    let n = share * length;
    assert(0 <= n <= ONE * length) by (nonlinear_arith)
        requires
            0 <= share <= ONE,
            0 <= length,
            n == share * length,
    ;
    assert(0 <= n / (ONE as int) <= length) by (nonlinear_arith)
        requires
            0 <= n <= 1_000_000 * length,
            ONE == 1_000_000,
    ;
}

impl Default for Social {
    /// Neutral, with traits drawn from zero to one.
    fn default() -> (r: Social)
        ensures
            r.feeling == Feeling::Neutral,
            0 <= r.social_attributes.aggressivity@ < ONE,
            0 <= r.social_attributes.altruism@ < ONE,
            0 <= r.social_attributes.collectioneur@ < ONE,
    {
        Social {
            feeling: Feeling::Neutral,
            social_attributes: SocialAttributes {
                aggressivity: random_unit(),
                altruism: random_unit(),
                collectioneur: random_unit(),
            },
        }
    }
}

impl Default for Sensors {
    /// Sensors that hear to a distance of one and see to one of a hundred,
    /// and remember nothing.
    fn default() -> (r: Sensors)
        ensures
            r.hearing_range@ == ONE,
            r.sight_range@ == 100 * ONE,
            r.agent_sight@.len() == 0,
            r.food_sight@.len() == 0,
            r.wf(),
    {
        Sensors::new(Fixed::new(ONE), Fixed::new(100 * ONE))
    }
}

impl Default for Agent {
    /// An agent of a tenth of a unit of mass at the origin, looking straight
    /// down, with an id and a race of the bottom stage drawn by chance.
    fn default() -> (r: Agent)
        ensures
            r.wf(),
            r.mass@ == 100_000,
            r.position == Vec2::origin(),
            r.last_position == Vec2::origin(),
            r.look_at_dir == (Vec2 { x: Fixed::of(0), y: Fixed::of(-(ONE as int)) }),
            r.look_at_angle@ == -1_570_750,
            r.race.stage() == GameStage::Bottom,
            r.goal == Goal::Rest,
            r.memory_time@ == 4 * ONE,
            r.sensors.agent_sight@.len() == 0,
            r.body@.len() == 0,
            !r.is_guardian,
    {
        let id: u32 = random_id();
        let social: Social = Social::default();
        let mass: Fixed = Fixed::new(100_000);
        Agent {
            id,
            last_agent_hit: 0,
            position: Vec2::zero(),
            last_position: Vec2::zero(),
            speed: Fixed::zero(),
            look_at_angle: Fixed::new(-1_570_750),
            look_at_dir: Vec2::new(Fixed::zero(), Fixed::new(-ONE)),
            velocity: Vec2::zero(),
            target_position: Vec2::zero(),
            main_char_target_pos: None,
            radius: mass.times(Fixed::new(MASS_MULT)).times(Fixed::new(500_000)),
            body: Vec::new(),
            just_collided: false,
            other_collider_mass: Fixed::zero(),
            last_collision_time: Fixed::zero(),
            boost_time: Fixed::zero(),
            boost: false,
            turning: Turning::Straight,
            acc: Acceleration::Forward,
            race: Race::random_race(&GameStage::Bottom),
            social,
            energy: Fixed::new(100_000_000 * ONE),
            mass,
            previous_mass: mass,
            power_usage: Fixed::zero(),
            memory_time: Fixed::new(4 * ONE),
            goal: Goal::Rest,
            goal_time: Fixed::zero(),
            goal_status: AgentGoalStatus::Unset,
            sensors: Sensors::default(),
            entity: None,
            is_guardian: false,
            guardian_pos: Vec2::zero(),
        }
    }
}

impl Game {
    /// Puts `agent` into the world: in place of the agent with the same id,
    /// if there is one, else at the end.
    pub fn insert_agent(&mut self, agent: Agent)
        requires
            old(self).wf(),
            agent.wf(),
        ensures
            final(self).wf(),
            final(self).agents@ == (match lookup(old(self).agents@, agent.id) {
                Some(p) => old(self).agents@.update(p, agent),
                None => old(self).agents@.push(agent),
            }),
            lookup(final(self).agents@, agent.id) is Some,
            final(self).agents@.len() == old(self).agents@.len() + (if lookup(
                old(self).agents@,
                agent.id,
            ) is Some {
                0int
            } else {
                1int
            }),
            final(self).time == old(self).time,
            final(self).game_stage == old(self).game_stage,
            final(self).foods == old(self).foods,
            final(self).won == old(self).won,
    {
        let ghost before = self.agents@;
        let ghost id = agent.id;
        proof {
            agent_ids(before).index_of_first_ensures(id);
        }
        match find_agent(&self.agents, agent.id) {
            Some(p) => {
                self.agents[p] = agent;
                proof {
                    assert(agent_ids(self.agents@) =~= agent_ids(before));
                }
            },
            None => {
                self.agents.push(agent);
                proof {
                    let after = agent_ids(self.agents@);
                    assert forall|a: int, b: int|
                        0 <= a < after.len() && 0 <= b < after.len() && a != b implies after[a]
                        != after[b] by {
                        let n = before.len() as int;
                        if a < n && b < n {
                            assert(agent_ids(before)[a] != agent_ids(before)[b]);
                        } else {
                            let c = if a < n {
                                a
                            } else {
                                b
                            };
                            assert(agent_ids(before)[c] == after[c]);
                            assert(agent_ids(before).contains(after[c]));
                        }
                    }
                }
            },
        }
        proof {
            let after = agent_ids(self.agents@);
            let p = match lookup(before, id) {
                Some(p) => p,
                None => before.len() as int,
            };
            assert(after[p] == id);
            assert(after.contains(id));
            after.index_of_first_ensures(id);
        }
    }

    /// The agents of a new world: half of `num_agents` of the bottom stage
    /// and half of the middle stage, under ids drawn by chance but never that
    /// of the player's agent; and twenty guardians at their posts in two rows
    /// below the surface, under the ids from twenty on.
    pub fn gen_game_agents(num_agents: usize) -> (r: Vec<Agent>)
        ensures
            agent_ids(r@).no_duplicates(),
            forall|i: int| 0 <= i < r@.len() ==> (#[trigger] r@[i]).wf(),
            lookup(r@, MAIN_CHARACTER_ID) is None,
            forall|id: u32| 20 <= id < 40 ==> lookup(r@, id) is Some,
            forall|i: int|
                0 <= i < r@.len() && 20 <= (#[trigger] r@[i]).id < 40 ==> r@[i].is_guardian,
    {
        let mut game: Game = Game {
            time: Fixed::zero(),
            game_stage: GameStage::Bottom,
            agents: Vec::new(),
            foods: Vec::new(),
            won: false,
        };
        let half: usize = num_agents / 2;
        let mut round: usize = 0;
        proof {
            agent_ids(game.agents@).index_of_first_ensures(MAIN_CHARACTER_ID);
        }
        while round < 2
            invariant
                0 <= round <= 2,
                game.wf(),
                lookup(game.agents@, MAIN_CHARACTER_ID) is None,
            decreases 2 - round,
        {
            let stage: GameStage = if round == 0 {
                GameStage::Bottom
            } else {
                GameStage::Mid
            };
            let mut made: usize = 0;
            while made < half
                invariant
                    0 <= made <= half,
                    game.wf(),
                    lookup(game.agents@, MAIN_CHARACTER_ID) is None,
                decreases half - made,
            {
                let id: u32 = random_id();
                if id != MAIN_CHARACTER_ID {
                    let ghost before = game.agents@;
                    let agent: Agent = Agent::gen_random(&stage, id);
                    game.insert_agent(agent);
                    proof {
                        lemma_stays_absent(before, game.agents@, agent, MAIN_CHARACTER_ID);
                    }
                }
                made = made + 1;
            }
            round = round + 1;
        }
        let mut k: u32 = 0;
        while k < 20
            invariant
                0 <= k <= 20,
                game.wf(),
                lookup(game.agents@, MAIN_CHARACTER_ID) is None,
                forall|id: u32| 20 <= id < 20 + k ==> lookup(game.agents@, id) is Some,
                forall|i: int|
                    0 <= i < game.agents@.len() && 20 <= (#[trigger] game.agents@[i]).id < 20 + k
                        ==> game.agents@[i].is_guardian,
            decreases 20 - k,
        {
            let pos: Vec2 = guardian_post(k);
            let ghost before = game.agents@;
            let agent: Agent = Agent::gen_guardian(pos, k + 20);
            game.insert_agent(agent);
            proof {
                lemma_stays_absent(before, game.agents@, agent, MAIN_CHARACTER_ID);
                assert forall|id: u32| 20 <= id < 20 + k + 1 implies lookup(game.agents@, id)
                    is Some by {
                    if id != k + 20 {
                        lemma_stays_present(before, game.agents@, agent, id);
                    }
                }
                assert forall|i: int|
                    0 <= i < game.agents@.len() && 20 <= (#[trigger] game.agents@[i]).id < 20 + k
                        + 1 implies game.agents@[i].is_guardian by {
                    agent_ids(before).index_of_first_ensures(agent.id);
                    if i < before.len() && game.agents@[i] == before[i] {
                        if before[i].id == k + 20 {
                            assert(agent_ids(before)[i] == agent.id);
                            assert(agent_ids(before).contains(agent.id));
                        }
                    }
                }
            }
            k = k + 1;
        }
        game.agents
    }

    /// `num_agents` agents at most, each of a stage drawn by chance, under
    /// ids drawn by chance but never that of the player's agent.
    pub fn gen_agents(num_agents: usize) -> (r: Vec<Agent>)
        ensures
            r@.len() <= num_agents,
            agent_ids(r@).no_duplicates(),
            forall|i: int| 0 <= i < r@.len() ==> (#[trigger] r@[i]).wf(),
            lookup(r@, MAIN_CHARACTER_ID) is None,
    {
        let mut game: Game = Game {
            time: Fixed::zero(),
            game_stage: GameStage::Bottom,
            agents: Vec::new(),
            foods: Vec::new(),
            won: false,
        };
        proof {
            agent_ids(game.agents@).index_of_first_ensures(MAIN_CHARACTER_ID);
        }
        let mut made: usize = 0;
        while made < num_agents
            invariant
                0 <= made <= num_agents,
                game.wf(),
                game.agents@.len() <= made,
                lookup(game.agents@, MAIN_CHARACTER_ID) is None,
            decreases num_agents - made,
        {
            let stage: GameStage = GameStage::random_stage();
            let id: u32 = random_id();
            if id != MAIN_CHARACTER_ID {
                let ghost before = game.agents@;
                let agent: Agent = Agent::gen_random(&stage, id);
                game.insert_agent(agent);
                proof {
                    lemma_stays_absent(before, game.agents@, agent, MAIN_CHARACTER_ID);
                    assert(game.agents@.len() <= before.len() + 1);
                }
            }
            made = made + 1;
        }
        game.agents
    }

    /// `num_foods` pieces of food, each at a place drawn from all of the
    /// world, with a little energy and a little mass.
    pub fn gen_foods(num_foods: usize) -> (r: Vec<Food>)
        ensures
            r@.len() == num_foods,
            forall|i: int|
                0 <= i < r@.len() ==> {
                    let food = #[trigger] r@[i];
                    &&& 0 <= food.position.x@ <= LEVEL_WIDTH
                    &&& 0 <= food.position.y@ <= LEVEL_HEIGHT
                    &&& 0 <= food.energy@ < 20_000
                    &&& 0 <= food.mass@ < 20_000
                    &&& food.acc == Vec2::origin()
                },
    {
        let mut foods: Vec<Food> = Vec::new();
        let mut i: usize = 0;
        while i < num_foods
            invariant
                0 <= i <= num_foods,
                foods@.len() == i,
                forall|j: int|
                    0 <= j < i ==> {
                        let food = #[trigger] foods@[j];
                        &&& 0 <= food.position.x@ <= LEVEL_WIDTH
                        &&& 0 <= food.position.y@ <= LEVEL_HEIGHT
                        &&& 0 <= food.energy@ < 20_000
                        &&& 0 <= food.mass@ < 20_000
                        &&& food.acc == Vec2::origin()
                    },
            decreases num_foods - i,
        {
            let share_y: Fixed = random_unit();
            let share_x: Fixed = random_unit();
            proof {
                lemma_share_of(share_x@, LEVEL_WIDTH as int);
                lemma_share_of(share_y@, LEVEL_HEIGHT as int);
            }
            foods.push(
                Food {
                    position: Vec2::new(
                        share_x.times(Fixed::new(LEVEL_WIDTH)),
                        share_y.times(Fixed::new(LEVEL_HEIGHT)),
                    ),
                    energy: Span::new(0, 20_000).draw(),
                    mass: Span::new(0, 20_000).draw(),
                    id: random_id(),
                    acc: Vec2::zero(),
                },
            );
            i = i + 1;
        }
        foods
    }

    /// A new world at time zero, in its bottom stage: with the agents of
    /// [`Game::gen_game_agents`] and the food of [`Game::gen_foods`], and
    /// not yet with the player's agent.
    pub fn new() -> (r: Game)
        ensures
            r.wf(),
            r.time@ == 0,
            r.game_stage == GameStage::Bottom,
            !r.won,
            r.foods@.len() == NUM_FOODS,
            lookup(r.agents@, MAIN_CHARACTER_ID) is None,
            forall|id: u32| 20 <= id < 40 ==> lookup(r.agents@, id) is Some,
    {
        Game {
            time: Fixed::zero(),
            game_stage: GameStage::Bottom,
            agents: Game::gen_game_agents(NUM_AGENTS),
            foods: Game::gen_foods(NUM_FOODS),
            won: false,
        }
    }
}

/// The post of the guardian with the number `k`: the first ten stand in a
/// row two thousand below the top of the world, five from the left wall on
/// and five from the right wall on; the others in a row four thousand below
/// it, over the whole width.
pub open spec fn post_of(k: u32) -> Vec2 {
    if k < 5 {
        Vec2 {
            x: Fixed::of(LEVEL_WIDTH / 2).prod(Fixed::of(k * ONE)).ratio(Fixed::of(10 * ONE)).prod(
                Fixed::of(850_000),
            ),
            y: Fixed::of(LEVEL_HEIGHT - 2_000 * ONE),
        }
    } else if k < 10 {
        Vec2 {
            x: Fixed::of(LEVEL_WIDTH as int).diff(
                Fixed::of(LEVEL_WIDTH as int).prod(Fixed::of((k - 5) * ONE)).ratio(
                    Fixed::of(10 * ONE),
                ).prod(Fixed::of(850_000)),
            ),
            y: Fixed::of(LEVEL_HEIGHT - 2_000 * ONE),
        }
    } else {
        Vec2 {
            x: Fixed::of(LEVEL_WIDTH as int).prod(Fixed::of((k - 10) * ONE)).ratio(
                Fixed::of(10 * ONE),
            ),
            y: Fixed::of(LEVEL_HEIGHT - 4_000 * ONE),
        }
    }
}

/// The post of the guardian with the number `k`.
pub fn guardian_post(k: u32) -> (r: Vec2)
    requires
        k < 20,
    ensures
        r == post_of(k),
{
    let ten: Fixed = Fixed::new(10 * ONE);
    let width: Fixed = Fixed::new(LEVEL_WIDTH);
    if k < 5 {
        Vec2::new(
            Fixed::new(LEVEL_WIDTH / 2).times(Fixed::new((k as i64) * ONE)).over(ten).times(
                Fixed::new(850_000),
            ),
            Fixed::new(LEVEL_HEIGHT - 2_000 * ONE),
        )
    } else if k < 10 {
        Vec2::new(
            width.minus(
                width.times(Fixed::new(((k - 5) as i64) * ONE)).over(ten).times(Fixed::new(850_000)),
            ),
            Fixed::new(LEVEL_HEIGHT - 2_000 * ONE),
        )
    } else {
        Vec2::new(
            width.times(Fixed::new(((k - 10) as i64) * ONE)).over(ten),
            Fixed::new(LEVEL_HEIGHT - 4_000 * ONE),
        )
    }
}

/// An id that no agent has stays without one when an agent with another id
/// is put in.
pub proof fn lemma_stays_absent(before: Seq<Agent>, after: Seq<Agent>, agent: Agent, id: u32)
    requires
        after == (match lookup(before, agent.id) {
            Some(p) => before.update(p, agent),
            None => before.push(agent),
        }),
        lookup(before, id) is None,
        agent.id != id,
    ensures
        lookup(after, id) is None,
{
    agent_ids(before).index_of_first_ensures(id);
    agent_ids(before).index_of_first_ensures(agent.id);
    agent_ids(after).index_of_first_ensures(id);
    if agent_ids(after).contains(id) {
        let i = choose|i: int| 0 <= i < agent_ids(after).len() && agent_ids(after)[i] == id;
        if i < before.len() {
            assert(agent_ids(before)[i] == before[i].id);
            assert(after[i] == before[i] || after[i] == agent);
            assert(agent_ids(before).contains(id));
        }
    }
}

/// An id that an agent has keeps one when an agent is put in.
pub proof fn lemma_stays_present(before: Seq<Agent>, after: Seq<Agent>, agent: Agent, id: u32)
    requires
        after == (match lookup(before, agent.id) {
            Some(p) => before.update(p, agent),
            None => before.push(agent),
        }),
        lookup(before, id) is Some,
        agent.id != id,
    ensures
        lookup(after, id) is Some,
{
    agent_ids(before).index_of_first_ensures(id);
    agent_ids(before).index_of_first_ensures(agent.id);
    agent_ids(after).index_of_first_ensures(id);
    let i = lookup(before, id)->Some_0;
    assert(agent_ids(before)[i] == id);
    assert(after[i] == before[i]);
    assert(agent_ids(after)[i] == id);
    assert(agent_ids(after).contains(id));
}

} // verus!
