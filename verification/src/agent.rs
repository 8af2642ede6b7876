//! The creatures of the world: what an agent is, what it remembers of the
//! others, and how its goal becomes a place to go to.

use crate::fixed::{isqrt, mul_raw, sat, Fixed};
use crate::game::Food;
use crate::spatial::IndexEntry;
use crate::vec2::{norm2, vec_dot, vec_minus, vec_plus, vec_scale, Vec2};
use vstd::prelude::*;

verus! {

/// Raw factor from a mass to the size of a creature's quad.
pub const MASS_MULT: i64 = 1_000_000_000;

/// Raw factor from the size of the quad to the radius of one sub-body.
pub const ATOM_MULT: i64 = 150_000;

/// Raw factor from the radius to the range of sight and of hearing.
pub const SIGHT_MULT: i64 = 20_000_000;

/// Raw distance, per unit of mass, that a fleeing agent aims for.
pub const FLEE_MULT: i64 = 100_000_000;

/// Raw limit on an offset of the body plan: an offset at or beyond it gives
/// a sub-body that is not in use.
pub const BODY_REACH: i64 = 490_000_000;

/// The id of the agent that the player steers.
pub const MAIN_CHARACTER_ID: u32 = 1;

/// One circular sub-shape of an agent's collision shape.
#[derive(Clone, Copy, Debug, PartialEq, Eq, Structural)]
pub struct Body {
    /// Offset of the centre from the agent's position, in world space.
    pub atom_pos: Vec2,
    pub atom_size: Fixed,
    pub acceleration: Vec2,
    /// Handle of the presentation layer; never read here.
    pub entity: Option<u64>,
    pub is_used: bool,
}

/// Which way an agent turns, and how hard (between zero and one).
#[derive(Clone, Copy, Debug, PartialEq, Eq, Structural)]
pub enum Turning {
    Left(Fixed),
    Right(Fixed),
    Straight,
}

#[derive(Clone, Copy, Debug, PartialEq, Eq, Structural)]
pub enum Acceleration {
    Forward,
    Backward,
    Idle,
}

#[derive(Clone, Copy, Debug, PartialEq, Eq, Structural)]
pub enum Feeling {
    Neutral,
    Happy,
    Sadness,
    Angry,
}

#[derive(Clone, Copy, Debug, PartialEq, Eq, Structural)]
pub enum AgentGoalStatus {
    Unset,
    LookingForGoal,
    WorkingOnIt,
    Completed,
    Error,
}

/// What an agent remembers of another one it has seen.
#[derive(Clone, Copy, Debug, PartialEq, Eq, Structural)]
pub struct AgentSight {
    pub time_of_last_sight: Fixed,
    pub distance: Fixed,
    pub id: u32,
    pub position: Vec2,
    pub last_position: Vec2,
    /// Momentum of the other agent along the line toward the observer.
    pub speed_along_itself: Fixed,
    pub feeling: Feeling,
    pub mass: Fixed,
    pub speed: Fixed,
    pub look_at_angle: Fixed,
}

/// What an agent remembers of a piece of food it has seen.
#[derive(Clone, Copy, Debug, PartialEq, Eq, Structural)]
pub struct FoodSight {
    pub time_of_last_sight: Fixed,
    pub distance: Fixed,
    pub position: Vec2,
    pub energy: Fixed,
    pub mass: Fixed,
    pub id: u32,
}

/// What an agent is after.
#[derive(Clone, Copy, Debug, PartialEq, Eq, Structural)]
pub enum Goal {
    Rest,
    SearchForAFight,
    SearchTeam,
    SearchForFood,
    SearchForItem,
    /// A partner of the given mass.
    FindPartner(Fixed),
    GoTo(Vec2),
    GoToAgent(u32),
    Food(FoodSight),
    /// Away from the given place.
    Flee(Vec2),
    Bully(u32),
}

#[derive(Clone, Copy, Debug, PartialEq, Eq, Structural)]
pub enum RaceBottom {
    Ameoba,
    StratolopusArealus,
}

#[derive(Clone, Copy, Debug, PartialEq, Eq, Structural)]
pub enum RaceMid {
    Piko,
    Seahorse,
}

#[derive(Clone, Copy, Debug, PartialEq, Eq, Structural)]
pub enum RaceTop {
    Squid,
    Whale,
}

#[derive(Clone, Copy, Debug, PartialEq, Eq, Structural)]
pub enum Race {
    Bottom(RaceBottom),
    Mid(RaceMid),
    Top(RaceTop),
}

#[derive(Clone, Copy, Debug, PartialEq, Eq, Structural)]
pub struct SocialAttributes {
    pub aggressivity: Fixed,
    pub altruism: Fixed,
    pub collectioneur: Fixed,
}

#[derive(Clone, Copy, Debug, PartialEq, Eq, Structural)]
pub struct Social {
    pub feeling: Feeling,
    pub social_attributes: SocialAttributes,
}

/// How far an agent senses, and what it remembers having seen. No two
/// records of one list are about the same id.
#[derive(Clone, Debug)]
pub struct Sensors {
    pub hearing_range: Fixed,
    pub sight_range: Fixed,
    pub agent_sight: Vec<AgentSight>,
    pub food_sight: Vec<FoodSight>,
}

/// One creature.
#[derive(Clone, Debug)]
pub struct Agent {
    pub id: u32,
    pub last_agent_hit: u32,
    pub position: Vec2,
    /// Where the agent was one tick ago; `position - last_position` is the
    /// velocity that carries it on.
    pub last_position: Vec2,
    pub speed: Fixed,
    /// Heading, in radians.
    pub look_at_angle: Fixed,
    /// The unit vector of the heading, as the host last gave it.
    pub look_at_dir: Vec2,
    pub velocity: Vec2,
    pub target_position: Vec2,
    pub main_char_target_pos: Option<Vec2>,
    pub radius: Fixed,
    pub body: Vec<Body>,
    pub just_collided: bool,
    pub other_collider_mass: Fixed,
    pub last_collision_time: Fixed,
    pub boost_time: Fixed,
    pub boost: bool,
    pub turning: Turning,
    pub acc: Acceleration,
    pub race: Race,
    pub social: Social,
    pub energy: Fixed,
    pub mass: Fixed,
    pub previous_mass: Fixed,
    pub power_usage: Fixed,
    pub memory_time: Fixed,
    pub goal: Goal,
    pub goal_time: Fixed,
    pub goal_status: AgentGoalStatus,
    pub sensors: Sensors,
    /// Handle of the presentation layer; never read here.
    pub entity: Option<u64>,
    pub is_guardian: bool,
    pub guardian_pos: Vec2,
}

/// The ids that a list of sight records is about, in its order.
pub open spec fn sight_ids(records: Seq<AgentSight>) -> Seq<u32> {
    records.map_values(|r: AgentSight| r.id)
}

/// The record about `id` is too old at `time` for a memory of `memory_time`.
pub open spec fn expired(record: AgentSight, time: Fixed, memory_time: Fixed) -> bool {
    sat(time@ - record.time_of_last_sight@) > memory_time@
}

/// The records that are not too old at `time`, in their order.
pub open spec fn retained(records: Seq<AgentSight>, time: Fixed, memory_time: Fixed) -> Seq<
    AgentSight,
>
    decreases records.len(),
{
    if records.len() == 0 {
        Seq::empty()
    } else if expired(records.last(), time, memory_time) {
        retained(records.drop_last(), time, memory_time)
    } else {
        retained(records.drop_last(), time, memory_time).push(records.last())
    }
}

/// The list `records` after `sight` has been seen: the record about the same
/// id is replaced, or the new one is added at the end.
pub open spec fn remembered(records: Seq<AgentSight>, sight: AgentSight) -> Seq<AgentSight> {
    match sight_ids(records).index_of_first(sight.id) {
        Some(p) => records.update(p, sight),
        None => records.push(sight),
    }
}

/// A record is kept by `retained` if and only if it was in the list and is
/// not too old.
pub proof fn lemma_retained_contains(
    records: Seq<AgentSight>,
    time: Fixed,
    memory_time: Fixed,
    r: AgentSight,
)
    ensures
        retained(records, time, memory_time).contains(r) <==> (records.contains(r) && !expired(
            r,
            time,
            memory_time,
        )),
    decreases records.len(),
{
    let kept = retained(records, time, memory_time);
    if records.len() > 0 {
        let front = records.drop_last();
        let last = records.last();
        let kept_front = retained(front, time, memory_time);
        lemma_retained_contains(front, time, memory_time, r);
        if kept.contains(r) {
            let i = choose|i: int| 0 <= i < kept.len() && kept[i] == r;
            if i < kept_front.len() {
                assert(kept_front[i] == r);
                assert(kept_front.contains(r));
                assert(front.contains(r));
                let j = choose|j: int| 0 <= j < front.len() && front[j] == r;
                assert(records[j] == r);
            } else {
                assert(r == last);
                assert(records[records.len() - 1] == r);
            }
            assert(records.contains(r));
        }
        if records.contains(r) && !expired(r, time, memory_time) {
            let j = choose|j: int| 0 <= j < records.len() && records[j] == r;
            if j < front.len() {
                assert(front[j] == r);
                assert(front.contains(r));
                assert(kept_front.contains(r));
                let i = choose|i: int| 0 <= i < kept_front.len() && kept_front[i] == r;
                assert(kept[i] == r);
            } else {
                assert(kept[kept.len() - 1] == r);
            }
            assert(kept.contains(r));
        }
    }
}

/// Each id that `retained` keeps a record about had one in the list.
pub proof fn lemma_retained_ids(
    records: Seq<AgentSight>,
    time: Fixed,
    memory_time: Fixed,
    id: u32,
)
    ensures
        sight_ids(retained(records, time, memory_time)).contains(id) ==> sight_ids(
            records,
        ).contains(id),
    decreases records.len(),
{
    let kept = retained(records, time, memory_time);
    if records.len() > 0 && sight_ids(kept).contains(id) {
        let front = records.drop_last();
        let kept_front = retained(front, time, memory_time);
        lemma_retained_ids(front, time, memory_time, id);
        let i = choose|i: int| 0 <= i < sight_ids(kept).len() && sight_ids(kept)[i] == id;
        if i < kept_front.len() {
            assert(sight_ids(kept_front)[i] == id);
            assert(sight_ids(kept_front).contains(id));
            let j = choose|j: int| 0 <= j < sight_ids(front).len() && sight_ids(front)[j] == id;
            assert(sight_ids(records)[j] == id);
        } else {
            assert(sight_ids(records)[records.len() - 1] == id);
        }
    }
}

/// `retained` keeps at most one record about each id where the list did.
pub proof fn lemma_retained_unique(records: Seq<AgentSight>, time: Fixed, memory_time: Fixed)
    requires
        sight_ids(records).no_duplicates(),
    ensures
        sight_ids(retained(records, time, memory_time)).no_duplicates(),
    decreases records.len(),
{
    let kept = retained(records, time, memory_time);
    if records.len() > 0 {
        let front = records.drop_last();
        let last = records.last();
        let kept_front = retained(front, time, memory_time);
        assert forall|a: int, b: int|
            0 <= a < sight_ids(front).len() && 0 <= b < sight_ids(front).len() && a
                != b implies sight_ids(front)[a] != sight_ids(front)[b] by {
            assert(sight_ids(records)[a] != sight_ids(records)[b]);
        }
        lemma_retained_unique(front, time, memory_time);
        if !expired(last, time, memory_time) {
            lemma_retained_ids(front, time, memory_time, last.id);
            if sight_ids(front).contains(last.id) {
                let j = choose|j: int|
                    0 <= j < sight_ids(front).len() && sight_ids(front)[j] == last.id;
                assert(sight_ids(records)[j] == sight_ids(records)[records.len() - 1]);
            }
            assert forall|a: int, b: int|
                0 <= a < sight_ids(kept).len() && 0 <= b < sight_ids(kept).len() && a
                    != b implies sight_ids(kept)[a] != sight_ids(kept)[b] by {
                let n = kept_front.len() as int;
                if a < n && b < n {
                    assert(sight_ids(kept_front)[a] != sight_ids(kept_front)[b]);
                } else {
                    let c = if a < n {
                        a
                    } else {
                        b
                    };
                    assert(sight_ids(kept_front)[c] == kept[c].id);
                    assert(sight_ids(kept_front).contains(kept[c].id));
                }
            }
        }
    }
}

impl Sensors {
    /// No two records are about the same agent.
    pub open spec fn wf(&self) -> bool {
        sight_ids(self.agent_sight@).no_duplicates()
    }

    /// Sensors of the given ranges that remember nothing.
    pub fn new(hearing_range: Fixed, sight_range: Fixed) -> (r: Sensors)
        ensures
            r.hearing_range == hearing_range,
            r.sight_range == sight_range,
            r.agent_sight@.len() == 0,
            r.food_sight@.len() == 0,
            r.wf(),
    {
        Sensors { hearing_range, sight_range, agent_sight: Vec::new(), food_sight: Vec::new() }
    }
}

/// Where in `records` the record about `id` is.
pub fn find_sight(records: &Vec<AgentSight>, id: u32) -> (r: Option<usize>)
    ensures
        match r {
            Some(p) => sight_ids(records@).index_of_first(id) == Some(p as int),
            None => sight_ids(records@).index_of_first(id) is None,
        },
{
    let ghost ids = sight_ids(records@);
    let mut i: usize = 0;
    while i < records.len()
        invariant
            0 <= i <= records.len(),
            ids == sight_ids(records@),
            forall|j: int| 0 <= j < i ==> ids[j] != id,
        decreases records.len() - i,
    {
        if records[i].id == id {
            proof {
                assert(ids[i as int] == id);
                assert(ids.contains(id));
                ids.index_of_first_ensures(id);
            }
            return Some(i);
        }
        i = i + 1;
    }
    proof {
        ids.index_of_first_ensures(id);
    }
    None
}

/// The ids that a list of food records is about, in its order.
pub open spec fn food_sight_ids(records: Seq<FoodSight>) -> Seq<u32> {
    records.map_values(|r: FoodSight| r.id)
}

/// The list `records` after the food `id` has been seen at `time` and
/// `distance`: the record about it is brought up to date in both, or `fresh`
/// is added at the end.
pub open spec fn food_remembered(
    records: Seq<FoodSight>,
    id: u32,
    time: Fixed,
    distance: Fixed,
    fresh: FoodSight,
) -> Seq<FoodSight> {
    match food_sight_ids(records).index_of_first(id) {
        Some(p) => records.update(
            p,
            FoodSight { time_of_last_sight: time, distance, ..records[p] },
        ),
        None => records.push(fresh),
    }
}

/// The food records that are no older at `time` than half of `memory_time`,
/// in their order.
pub open spec fn food_retained(records: Seq<FoodSight>, time: Fixed, memory_time: Fixed) -> Seq<
    FoodSight,
>
    decreases records.len(),
{
    if records.len() == 0 {
        Seq::empty()
    } else if time.diff(records.last().time_of_last_sight)@ > memory_time.ratio(
        Fixed::of(2_000_000),
    )@ {
        food_retained(records.drop_last(), time, memory_time)
    } else {
        food_retained(records.drop_last(), time, memory_time).push(records.last())
    }
}

/// The ids of `entries`, in their order.
pub open spec fn entry_ids(entries: Seq<IndexEntry>) -> Seq<u32> {
    entries.map_values(|e: IndexEntry| e.id)
}

/// The position that `entries` gives for `id`: that of the first entry with
/// that id.
pub open spec fn position_of(entries: Seq<IndexEntry>, id: u32) -> Option<Vec2> {
    match entry_ids(entries).index_of_first(id) {
        Some(p) => Some(entries[p].position),
        None => None,
    }
}

/// The position that `entries` gives for `id`, if it has one.
pub fn find_position(entries: &Vec<IndexEntry>, id: u32) -> (r: Option<Vec2>)
    ensures
        r == position_of(entries@, id),
{
    let ghost ids = entry_ids(entries@);
    let mut i: usize = 0;
    while i < entries.len()
        invariant
            0 <= i <= entries.len(),
            ids == entry_ids(entries@),
            forall|j: int| 0 <= j < i ==> ids[j] != id,
        decreases entries.len() - i,
    {
        if entries[i].id == id {
            proof {
                assert(ids[i as int] == id);
                assert(ids.contains(id));
                ids.index_of_first_ensures(id);
            }
            return Some(entries[i].position);
        }
        i = i + 1;
    }
    proof {
        ids.index_of_first_ensures(id);
    }
    None
}

/// The radius that goes with a raw mass.
pub open spec fn radius_of(mass: int) -> int {
    mul_raw(mul_raw(mass, MASS_MULT as int), ATOM_MULT as int)
}

/// The range of sight that goes with a raw radius.
pub open spec fn sight_range_of(radius: int) -> int {
    mul_raw(radius, SIGHT_MULT as int)
}

/// Where an agent at `position` of raw mass `mass` flees to from `from`:
/// straight away from it, the farther the heavier it is. An agent that
/// stands on `from` flees along x.
pub open spec fn flee_target(position: Vec2, from: Vec2, mass: int) -> Vec2 {
    vec_plus(position, vec_scale(vec_minus(position, from).unit(), mul_raw(mass, FLEE_MULT as int)))
}

/// The sub-body that the body plan's offset `node` gives an agent of raw
/// mass `mass`.
pub open spec fn body_of(node: Vec2, mass: int) -> Body {
    let side = mul_raw(mul_raw(ATOM_MULT as int, mass), MASS_MULT as int);
    Body {
        atom_pos: vec_scale(node, mass),
        atom_size: Fixed { raw: sat(isqrt(norm2(side, side))) as i64 },
        acceleration: Vec2 { x: Fixed { raw: 0 }, y: Fixed { raw: 0 } },
        entity: None,
        is_used: sat(isqrt(norm2(node.x@, node.y@))) < BODY_REACH,
    }
}

impl AgentSight {
    /// What `observer` notes at `time` of `other`, seen at `distance`.
    pub open spec fn of(observer: Agent, other: Agent, time: Fixed, distance: Fixed) -> AgentSight {
        AgentSight {
            time_of_last_sight: time,
            distance,
            id: other.id,
            position: other.position,
            last_position: other.last_position,
            speed_along_itself: Fixed { raw: observer.charging_momentum(other) as i64 },
            feeling: other.social.feeling,
            mass: other.mass,
            speed: other.speed,
            look_at_angle: other.look_at_angle,
        }
    }

    /// What `observer` notes at `time` of `other`, seen at `distance`.
    pub fn observe(observer: &Agent, other: &Agent, time: Fixed, distance: Fixed) -> (r:
        AgentSight)
        ensures
            r == AgentSight::of(*observer, *other, time, distance),
    {
        AgentSight {
            time_of_last_sight: time,
            distance,
            id: other.id,
            position: other.position,
            last_position: other.last_position,
            speed_along_itself: observer.compute_agent_charging_momentum(other),
            feeling: other.social.feeling,
            mass: other.mass,
            speed: other.speed,
            look_at_angle: other.look_at_angle,
        }
    }
}

impl Agent {
    /// The mass is positive and no two sight records are about one agent.
    pub open spec fn wf(&self) -> bool {
        self.mass@ > 0 && self.sensors.wf()
    }

    /// Momentum of `other` along the line from it toward `self`, raw: large
    /// when `other` is heavy, fast and headed for `self`.
    pub open spec fn charging_momentum(self, other: Agent) -> int {
        let momentum = vec_scale(vec_scale(other.look_at_dir, other.speed@), other.mass@);
        vec_dot(momentum, vec_minus(self.position, other.position))
    }

    /// The target that the goal gives: the place itself for a place, the
    /// position in `positions` of the agent for an agent (the old target where
    /// it has none), the far side for a flight, one step ahead plus `jitter`
    /// for a search, and the old target for no goal.
    pub open spec fn target_for(self, positions: Seq<IndexEntry>, jitter: Vec2) -> Vec2 {
        match self.goal {
            Goal::GoTo(pos) => pos,
            Goal::GoToAgent(id) | Goal::Bully(id) => match position_of(positions, id) {
                Some(pos) => pos,
                None => self.target_position,
            },
            Goal::Food(food) => food.position,
            Goal::Flee(from) => flee_target(self.position, from, self.mass@),
            Goal::SearchForAFight | Goal::SearchTeam | Goal::SearchForFood | Goal::SearchForItem => {
                vec_plus(self.position, vec_plus(self.look_at_dir, jitter))
            },
            Goal::Rest | Goal::FindPartner(_) => self.target_position,
        }
    }

    pub fn compute_agent_charging_momentum(&self, other_agent: &Agent) -> (r: Fixed)
        ensures
            r@ == self.charging_momentum(*other_agent),
    {
        let towards_self_dir: Vec2 = self.position.minus(other_agent.position);
        let momentum: Vec2 = other_agent.look_at_dir.scale(other_agent.speed).scale(
            other_agent.mass,
        );
        momentum.dot(towards_self_dir)
    }

    /// Sets the velocity to the heading at the current speed.
    pub fn compute_self_velocity(&mut self)
        ensures
            *final(self) == (Agent {
                velocity: vec_scale(old(self).look_at_dir, old(self).speed@),
                ..*old(self)
            }),
    {
        self.velocity = self.look_at_dir.scale(self.speed);
    }

    /// The unit vector of the heading.
    pub fn compute_look_at_dir(&self) -> (r: Vec2)
        ensures
            r == self.look_at_dir,
    {
        self.look_at_dir
    }

    /// The direction of travel: the step of the last tick, normalised; zero
    /// for an agent that did not move.
    pub fn forward_dir(&self) -> (r: Vec2)
        ensures
            r == if vec_minus(self.position, self.last_position) == Vec2::origin() {
                Vec2::origin()
            } else {
                vec_minus(self.position, self.last_position).unit()
            },
    {
        let verlet_velocity: Vec2 = self.position.minus(self.last_position);
        if verlet_velocity.is_zero() {
            Vec2::zero()
        } else {
            verlet_velocity.normalize()
        }
    }

    /// The heading turned a quarter turn to the left, and to the right.
    pub fn compute_left_and_right_dir(&self) -> (r: (Vec2, Vec2))
        ensures
            r.0.x@ == sat(-self.look_at_dir.y@),
            r.0.y == self.look_at_dir.x,
            r.1.x@ == sat(-r.0.x@),
            r.1.y@ == sat(-r.0.y@),
    {
        let left_dir: Vec2 = self.look_at_dir.perp();
        (left_dir, left_dir.neg())
    }

    /// Notes `sight` in the memory of agents seen, in place of what was
    /// remembered of the same agent.
    pub fn remember(&mut self, sight: AgentSight)
        requires
            old(self).sensors.wf(),
        ensures
            final(self).sensors.agent_sight@ == remembered(old(self).sensors.agent_sight@, sight),
            final(self).sensors.wf(),
            *final(self) == (Agent {
                sensors: Sensors {
                    agent_sight: final(self).sensors.agent_sight,
                    ..old(self).sensors
                },
                ..*old(self)
            }),
    {
        let ghost before = self.sensors.agent_sight@;
        match find_sight(&self.sensors.agent_sight, sight.id) {
            Some(p) => {
                proof {
                    sight_ids(before).index_of_first_ensures(sight.id);
                }
                self.sensors.agent_sight[p] = sight;
                proof {
                    assert(sight_ids(self.sensors.agent_sight@) =~= sight_ids(before));
                }
            },
            None => {
                proof {
                    sight_ids(before).index_of_first_ensures(sight.id);
                }
                self.sensors.agent_sight.push(sight);
                proof {
                    let after = sight_ids(self.sensors.agent_sight@);
                    assert forall|a: int, b: int|
                        0 <= a < after.len() && 0 <= b < after.len() && a != b implies after[a]
                        != after[b] by {
                        let n = before.len() as int;
                        if a < n && b < n {
                            assert(sight_ids(before)[a] != sight_ids(before)[b]);
                        } else {
                            let c = if a < n {
                                a
                            } else {
                                b
                            };
                            assert(sight_ids(before)[c] == after[c]);
                            assert(sight_ids(before).contains(after[c]));
                        }
                    }
                }
            },
        }
    }

    /// Notes at `time` what is seen of `other_agent` at `distance`.
    pub fn update_agent_sight(&mut self, time: Fixed, distance: Fixed, other_agent: &Agent)
        requires
            old(self).sensors.wf(),
        ensures
            final(self).sensors.agent_sight@ == remembered(
                old(self).sensors.agent_sight@,
                AgentSight::of(*old(self), *other_agent, time, distance),
            ),
            final(self).sensors.wf(),
            *final(self) == (Agent {
                sensors: Sensors {
                    agent_sight: final(self).sensors.agent_sight,
                    ..old(self).sensors
                },
                ..*old(self)
            }),
    {
        let sight: AgentSight = AgentSight::observe(self, other_agent, time, distance);
        self.remember(sight);
    }

    /// Forgets every agent that was last seen more than the memory time before
    /// `time`; the other records stay as they are, in their order.
    pub fn forget_agents(&mut self, time: Fixed)
        ensures
            final(self).sensors.agent_sight@ == retained(
                old(self).sensors.agent_sight@,
                time,
                old(self).memory_time,
            ),
            old(self).sensors.wf() ==> final(self).sensors.wf(),
            *final(self) == (Agent {
                sensors: Sensors {
                    agent_sight: final(self).sensors.agent_sight,
                    ..old(self).sensors
                },
                ..*old(self)
            }),
    {
        let mut kept: Vec<AgentSight> = Vec::new();
        let n: usize = self.sensors.agent_sight.len();
        let mut i: usize = 0;
        while i < n
            invariant
                0 <= i <= n,
                n == self.sensors.agent_sight@.len(),
                *self == *old(self),
                kept@ == retained(self.sensors.agent_sight@.take(i as int), time, self.memory_time),
            decreases n - i,
        {
            proof {
                let records = self.sensors.agent_sight@;
                assert(records.take(i + 1).drop_last() == records.take(i as int));
                assert(records.take(i + 1).last() == records[i as int]);
            }
            let record: AgentSight = self.sensors.agent_sight[i];
            if !(time.minus(record.time_of_last_sight).raw > self.memory_time.raw) {
                kept.push(record);
            }
            i = i + 1;
        }
        proof {
            let records = self.sensors.agent_sight@;
            assert(records.take(n as int) == records);
            if self.sensors.wf() {
                lemma_retained_unique(records, time, self.memory_time);
            }
        }
        self.sensors.agent_sight = kept;
    }

    /// Notes at `time` the piece of food `food` seen at `distance`: a record
    /// about it is brought up to date in time and distance, else one is made
    /// of what the food is.
    pub fn update_food_sight(&mut self, time: Fixed, distance: Fixed, food: &Food)
        ensures
            final(self).sensors.food_sight@ == food_remembered(
                old(self).sensors.food_sight@,
                food.id,
                time,
                distance,
                FoodSight {
                    time_of_last_sight: time,
                    distance,
                    position: food.position,
                    energy: food.energy,
                    mass: food.mass,
                    id: food.id,
                },
            ),
            *final(self) == (Agent {
                sensors: Sensors { food_sight: final(self).sensors.food_sight, ..old(self).sensors },
                ..*old(self)
            }),
    {
        let id: u32 = food.id;
        let ghost ids = food_sight_ids(self.sensors.food_sight@);
        let n: usize = self.sensors.food_sight.len();
        let mut i: usize = 0;
        while i < n
            invariant
                0 <= i <= n,
                n == self.sensors.food_sight@.len(),
                *self == *old(self),
                id == food.id,
                ids == food_sight_ids(self.sensors.food_sight@),
                forall|j: int| 0 <= j < i ==> ids[j] != id,
            decreases n - i,
        {
            if self.sensors.food_sight[i].id == id {
                proof {
                    assert(ids[i as int] == id);
                    assert(ids.contains(id));
                    ids.index_of_first_ensures(id);
                }
                self.sensors.food_sight[i].time_of_last_sight = time;
                self.sensors.food_sight[i].distance = distance;
                return ;
            }
            i = i + 1;
        }
        proof {
            ids.index_of_first_ensures(id);
        }
        self.sensors.food_sight.push(
            FoodSight {
                time_of_last_sight: time,
                distance,
                position: food.position,
                energy: food.energy,
                mass: food.mass,
                id,
            },
        );
    }

    /// Forgets every piece of food that was last seen more than half the
    /// memory time before `time`.
    pub fn forget_food(&mut self, time: Fixed)
        ensures
            final(self).sensors.food_sight@ == food_retained(
                old(self).sensors.food_sight@,
                time,
                old(self).memory_time,
            ),
            *final(self) == (Agent {
                sensors: Sensors { food_sight: final(self).sensors.food_sight, ..old(self).sensors },
                ..*old(self)
            }),
    {
        let limit: Fixed = self.memory_time.over(Fixed::new(2_000_000));
        let mut kept: Vec<FoodSight> = Vec::new();
        let n: usize = self.sensors.food_sight.len();
        let mut i: usize = 0;
        while i < n
            invariant
                0 <= i <= n,
                n == self.sensors.food_sight@.len(),
                *self == *old(self),
                limit == self.memory_time.ratio(Fixed::of(2_000_000)),
                kept@ == food_retained(
                    self.sensors.food_sight@.take(i as int),
                    time,
                    self.memory_time,
                ),
            decreases n - i,
        {
            proof {
                let records = self.sensors.food_sight@;
                assert(records.take(i + 1).drop_last() == records.take(i as int));
                assert(records.take(i + 1).last() == records[i as int]);
            }
            let record: FoodSight = self.sensors.food_sight[i];
            if !(time.minus(record.time_of_last_sight).raw > limit.raw) {
                kept.push(record);
            }
            i = i + 1;
        }
        proof {
            let records = self.sensors.food_sight@;
            assert(records.take(n as int) == records);
        }
        self.sensors.food_sight = kept;
    }

    /// Turns the goal into a target position. `agent_positions` says where
    /// the agents are; a goal about an agent that is not among them leaves the
    /// target as it is. `jitter` is the sideways step of a search.
    pub fn act(&mut self, agent_positions: &Vec<IndexEntry>, jitter: Vec2)
        ensures
            *final(self) == (Agent {
                target_position: old(self).target_for(agent_positions@, jitter),
                ..*old(self)
            }),
    {
        match self.goal {
            Goal::GoTo(pos) => {
                self.target_position = pos;
            },
            Goal::GoToAgent(agent_id) | Goal::Bully(agent_id) => {
                match find_position(agent_positions, agent_id) {
                    Some(pos) => {
                        self.target_position = pos;
                    },
                    None => {},
                }
            },
            Goal::Food(food_sight) => {
                self.target_position = food_sight.position;
            },
            Goal::Flee(from) => {
                let fleeing_direction: Vec2 = self.position.minus(from).normalize();
                let reach: Fixed = self.mass.times(Fixed::new(FLEE_MULT));
                self.target_position = self.position.plus(fleeing_direction.scale(reach));
            },
            Goal::SearchForAFight | Goal::SearchTeam | Goal::SearchForFood | Goal::SearchForItem => {
                self.target_position = self.position.plus(self.look_at_dir.plus(jitter));
            },
            Goal::Rest | Goal::FindPartner(_) => {},
        }
    }

    /// Sets the goal that answers a hit by `attacker`: to flee from where it
    /// stands, or to go after it.
    pub fn react_to_collision(
        &mut self,
        attacker: u32,
        attacker_position: Vec2,
        time: Fixed,
        flee: bool,
    )
        ensures
            *final(self) == (Agent {
                goal: if flee {
                    Goal::Flee(attacker_position)
                } else {
                    Goal::Bully(attacker)
                },
                goal_time: time,
                ..*old(self)
            }),
    {
        if flee {
            self.goal = Goal::Flee(attacker_position);
        } else {
            self.goal = Goal::Bully(attacker);
        }
        self.goal_time = time;
    }

    /// Sets the radius and the ranges of sight and hearing to what goes with
    /// the mass.
    pub fn update_mass_properties(&mut self)
        ensures
            *final(self) == (Agent {
                radius: Fixed { raw: radius_of(old(self).mass@) as i64 },
                sensors: Sensors {
                    sight_range: Fixed {
                        raw: sight_range_of(radius_of(old(self).mass@)) as i64,
                    },
                    hearing_range: Fixed {
                        raw: sight_range_of(radius_of(old(self).mass@)) as i64,
                    },
                    ..old(self).sensors
                },
                ..*old(self)
            }),
    {
        self.radius = self.mass.times(Fixed::new(MASS_MULT)).times(Fixed::new(ATOM_MULT));
        self.sensors.sight_range = self.radius.times(Fixed::new(SIGHT_MULT));
        self.sensors.hearing_range = self.sensors.sight_range;
    }

    /// Gives the agent the sub-bodies of a body plan: one for each offset,
    /// scaled by the mass, in use where the offset is within reach.
    pub fn set_body_plan(&mut self, plan: &Vec<Vec2>)
        ensures
            final(self).body@.len() == plan@.len(),
            forall|k: int|
                0 <= k < plan@.len() ==> #[trigger] final(self).body@[k] == body_of(
                    plan@[k],
                    old(self).mass@,
                ),
            *final(self) == (Agent { body: final(self).body, ..*old(self) }),
    {
        let mut body: Vec<Body> = Vec::new();
        let side: Fixed = Fixed::new(ATOM_MULT).times(self.mass).times(Fixed::new(MASS_MULT));
        let atom_size: Fixed = Vec2::new(side, side).length();
        let mut k: usize = 0;
        while k < plan.len()
            invariant
                0 <= k <= plan.len(),
                *self == *old(self),
                body@.len() == k,
                side@ == mul_raw(mul_raw(ATOM_MULT as int, self.mass@), MASS_MULT as int),
                atom_size@ == sat(isqrt(norm2(side@, side@))),
                forall|j: int| 0 <= j < k ==> #[trigger] body@[j] == body_of(plan@[j], self.mass@),
            decreases plan.len() - k,
        {
            let node: Vec2 = plan[k];
            body.push(
                Body {
                    atom_pos: node.scale(self.mass),
                    atom_size,
                    acceleration: Vec2::zero(),
                    entity: None,
                    is_used: node.length().raw < BODY_REACH,
                },
            );
            k = k + 1;
        }
        self.body = body;
    }
}

} // verus!
