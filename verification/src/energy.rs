//! Energy: what a collision does to it, how it settles afterwards, and what
//! the world tells those who watch and listen.

use crate::agent::{Agent, MAIN_CHARACTER_ID};
use crate::collision::CollisionEvent;
use crate::fixed::{isqrt_u128, sat_i128, Fixed, ONE};
use crate::game::{agent_ids, find_agent, lookup, Food, Game, KdTrees, LEVEL_HEIGHT};
use crate::motion::MovementParams;
use crate::spatial::Neighbor;
use vstd::prelude::*;

verus! {

/// Raw factor by which a hit on someone new raises the energy, above one.
pub const ENERGY_INCREASE_RATE: i64 = 30_000;

/// Raw share of its excess that an agent at rest loses in one tick.
pub const ENERGY_DECAY_RATE: i64 = 100;

/// Raw energy that an agent at rest regains in one tick.
pub const ENERGY_REGAIN_RATE: i64 = 10_000;

/// Raw energy that an agent at rest settles at.
pub const ENERGY_GROUND_STATE: i64 = 1_000_000;

/// Raw factor on the player's energy when a guardian hits it.
pub const GUARDIAN_SMASH: i64 = 500_000;

/// Raw time after a collision from which an agent is at rest.
pub const REST_TIME: i64 = 1_500_000;

/// Raw depth below the top of the world at which the surface lies.
pub const SURFACE_DEPTH: i64 = 1_000_000_000;

/// Raw energy above which the player moves as in the third stage.
pub const STAGE3_ENERGY: i64 = 200_000;

/// Raw energy above which the player moves as in the second stage.
pub const STAGE2_ENERGY: i64 = 120_000;

/// The agent after it has felt its side `event` of a collision at `time`: a
/// guardian's hit halves the energy of the player's agent; a hit on someone
/// else than last time raises the energy, a hit on the same one lowers it.
pub open spec fn felt(agent: Agent, event: CollisionEvent, time: Fixed) -> Agent {
    let smashed = if event.other_is_guardian && agent.id == MAIN_CHARACTER_ID {
        agent.energy.prod(Fixed::of(GUARDIAN_SMASH as int))
    } else {
        agent.energy
    };
    Agent {
        energy: if agent.last_agent_hit != event.other_agent_id {
            smashed.prod(Fixed::of(ONE + ENERGY_INCREASE_RATE))
        } else {
            smashed.prod(Fixed::of(ONE - ENERGY_INCREASE_RATE))
        },
        last_agent_hit: event.other_agent_id,
        last_collision_time: time,
        ..agent
    }
}

/// The agents after the first `upto` of `events` have been felt at `time`,
/// one after the other, each by the agent it is about; an event about an
/// agent that the world does not have changes nothing.
pub open spec fn after_events(
    agents: Seq<Agent>,
    events: Seq<CollisionEvent>,
    time: Fixed,
    upto: int,
) -> Seq<Agent>
    decreases upto,
{
    if upto <= 0 {
        agents
    } else {
        let before = after_events(agents, events, time, upto - 1);
        match lookup(before, events[upto - 1].agent_id) {
            Some(i) => before.update(i, felt(before[i], events[upto - 1], time)),
            None => before,
        }
    }
}

/// Feeling events leaves the agents as many as they were, and each with its
/// id.
pub proof fn lemma_after_events_keeps_ids(
    agents: Seq<Agent>,
    events: Seq<CollisionEvent>,
    time: Fixed,
    upto: int,
)
    ensures
        after_events(agents, events, time, upto).len() == agents.len(),
        forall|i: int|
            0 <= i < agents.len() ==> (#[trigger] after_events(agents, events, time, upto)[i]).id
                == agents[i].id,
    decreases upto,
{
    if upto > 0 {
        lemma_after_events_keeps_ids(agents, events, time, upto - 1);
        let before = after_events(agents, events, time, upto - 1);
        agent_ids(before).index_of_first_ensures(events[upto - 1].agent_id);
    }
}

/// The agent after a tick at `time` in which it may settle: once it is at
/// rest, it regains energy below the ground state and loses a share of its
/// excess above.
pub open spec fn relaxed(agent: Agent, time: Fixed) -> Agent {
    if time.diff(agent.last_collision_time)@ > REST_TIME {
        Agent {
            energy: if agent.energy@ < ONE {
                agent.energy.sum(Fixed::of(ENERGY_REGAIN_RATE as int))
            } else {
                agent.energy.diff(
                    Fixed::of(ENERGY_DECAY_RATE as int).prod(
                        agent.energy.diff(Fixed::of(ENERGY_GROUND_STATE as int)),
                    ),
                )
            },
            ..agent
        }
    } else {
        agent
    }
}

/// The agent after it has eaten `food`: heavier by its mass and richer by
/// its energy.
pub open spec fn fed(agent: Agent, food: Food) -> Agent {
    Agent { mass: agent.mass.sum(food.mass), energy: agent.energy.sum(food.energy), ..agent }
}

/// The frequency at which the player's character pulses, for its energy:
/// faster with more energy, between a quarter and nearly one.
pub open spec fn frequency_for(energy: Fixed) -> Fixed {
    Fixed::of(250_000).sum(energy.ratio(Fixed::of(2_500_000))).clamped(
        Fixed::of(250_000),
        Fixed::of(980_000),
    )
}

/// The rate at which the music plays while a guardian is at `distance`:
/// faster the nearer it is, between one and three times.
pub open spec fn playback_for(distance: Fixed) -> Fixed {
    if distance@ == 0 {
        Fixed::of(3_000_000)
    } else {
        Fixed::of(ONE as int).sum(
            Fixed::of(10_000_000).ratio(distance).prod(Fixed::of(3_000_000)),
        ).clamped(Fixed::of(ONE as int), Fixed::of(3_000_000))
    }
}

impl Agent {
    /// Feels its side `event` of a collision at `time`.
    pub fn feel(&mut self, event: &CollisionEvent, time: Fixed)
        ensures
            *final(self) == felt(*old(self), *event, time),
    {
        if event.other_is_guardian && self.id == MAIN_CHARACTER_ID {
            self.energy = self.energy.times(Fixed::new(GUARDIAN_SMASH));
        }
        if self.last_agent_hit != event.other_agent_id {
            self.energy = self.energy.times(Fixed::new(ONE + ENERGY_INCREASE_RATE));
        } else {
            self.energy = self.energy.times(Fixed::new(ONE - ENERGY_INCREASE_RATE));
        }
        self.last_agent_hit = event.other_agent_id;
        self.last_collision_time = time;
    }

    /// Settles for one tick at `time`.
    pub fn relax(&mut self, time: Fixed)
        ensures
            *final(self) == relaxed(*old(self), time),
    {
        if time.minus(self.last_collision_time).raw > REST_TIME {
            if self.energy.raw < ONE {
                self.energy = self.energy.plus(Fixed::new(ENERGY_REGAIN_RATE));
            } else {
                self.energy = self.energy.minus(
                    Fixed::new(ENERGY_DECAY_RATE).times(
                        self.energy.minus(Fixed::new(ENERGY_GROUND_STATE)),
                    ),
                );
            }
        }
    }

    /// Eats `food`.
    pub fn consume_food(&mut self, food: &Food)
        ensures
            *final(self) == fed(*old(self), *food),
    {
        self.mass = self.mass.plus(food.mass);
        self.energy = self.energy.plus(food.energy);
    }
}

/// Lets the agents feel the collisions `events` at `time`: every event once,
/// in the order given, by the agent it is about. Nothing else changes.
pub fn update_agent_properties(game: &mut Game, events: &Vec<CollisionEvent>, time: Fixed)
    ensures
        final(game).agents@ == after_events(old(game).agents@, events@, time, events@.len() as int),
        final(game).agents@.len() == old(game).agents@.len(),
        old(game).wf() ==> final(game).wf(),
        final(game).time == old(game).time,
        final(game).game_stage == old(game).game_stage,
        final(game).foods == old(game).foods,
        final(game).won == old(game).won,
{
    let mut k: usize = 0;
    while k < events.len()
        invariant
            0 <= k <= events@.len(),
            game.agents@ == after_events(old(game).agents@, events@, time, k as int),
            game.agents@.len() == old(game).agents@.len(),
            forall|j: int|
                0 <= j < game.agents@.len() ==> (#[trigger] game.agents@[j]).id == old(
                    game,
                ).agents@[j].id && (old(game).agents@[j].wf() ==> game.agents@[j].wf()),
            game.time == old(game).time,
            game.game_stage == old(game).game_stage,
            game.foods == old(game).foods,
            game.won == old(game).won,
        decreases events@.len() - k,
    {
        let ghost before = game.agents@;
        match find_agent(&game.agents, events[k].agent_id) {
            Some(i) => {
                game.agents[i].feel(&events[k], time);
                proof {
                    assert(game.agents@ =~= before.update(
                        i as int,
                        felt(before[i as int], events@[k as int], time),
                    ));
                }
            },
            None => {},
        }
        k = k + 1;
    }
    proof {
        assert(agent_ids(game.agents@) =~= agent_ids(old(game).agents@));
    }
}

/// Lets every agent settle for one tick at `time`. Nothing else changes.
pub fn energy_ground_state(game: &mut Game, time: Fixed)
    ensures
        final(game).agents@.len() == old(game).agents@.len(),
        forall|i: int|
            0 <= i < old(game).agents@.len() ==> #[trigger] final(game).agents@[i] == relaxed(
                old(game).agents@[i],
                time,
            ),
        old(game).wf() ==> final(game).wf(),
        final(game).time == old(game).time,
        final(game).game_stage == old(game).game_stage,
        final(game).foods == old(game).foods,
        final(game).won == old(game).won,
{
    let n: usize = game.agents.len();
    let mut i: usize = 0;
    while i < n
        invariant
            0 <= i <= n,
            n == game.agents@.len(),
            n == old(game).agents@.len(),
            forall|j: int| i <= j < n ==> #[trigger] game.agents@[j] == old(game).agents@[j],
            forall|j: int|
                0 <= j < i ==> #[trigger] game.agents@[j] == relaxed(old(game).agents@[j], time),
            game.time == old(game).time,
            game.game_stage == old(game).game_stage,
            game.foods == old(game).foods,
            game.won == old(game).won,
        decreases n - i,
    {
        game.agents[i].relax(time);
        i = i + 1;
    }
    proof {
        assert(agent_ids(game.agents@) =~= agent_ids(old(game).agents@));
    }
}

/// Whether the player's agent has just reached the surface: it has, the
/// first time that it is found above it, and the world then counts as won.
pub fn winning_condition(game: &mut Game) -> (r: bool)
    ensures
        r == (!old(game).won && match lookup(old(game).agents@, MAIN_CHARACTER_ID) {
            Some(p) => old(game).agents@[p].position.y@ > LEVEL_HEIGHT - SURFACE_DEPTH,
            None => false,
        }),
        final(game).won == (old(game).won || r),
        final(game).agents == old(game).agents,
        final(game).time == old(game).time,
        final(game).game_stage == old(game).game_stage,
        final(game).foods == old(game).foods,
{
    if game.won {
        return false;
    }
    match find_agent(&game.agents, MAIN_CHARACTER_ID) {
        Some(p) => {
            if game.agents[p].position.y.raw > LEVEL_HEIGHT - SURFACE_DEPTH {
                game.won = true;
                true
            } else {
                false
            }
        },
        None => false,
    }
}

/// Sets the parameters of motion to the stage that the player's energy has
/// reached: the third above the higher mark, the second above the lower;
/// below that, and in a world without the player's agent, they stay.
pub fn update_movement_params(movement_params: &mut MovementParams, game: &Game)
    ensures
        *final(movement_params) == (match lookup(game.agents@, MAIN_CHARACTER_ID) {
            Some(p) => if game.agents@[p].energy@ > STAGE3_ENERGY {
                MovementParams::stage3_params()
            } else if game.agents@[p].energy@ > STAGE2_ENERGY {
                MovementParams::stage2_params()
            } else {
                *old(movement_params)
            },
            None => *old(movement_params),
        }),
{
    match find_agent(&game.agents, MAIN_CHARACTER_ID) {
        Some(p) => {
            if game.agents[p].energy.raw > STAGE3_ENERGY {
                *movement_params = MovementParams::stage3();
            } else if game.agents[p].energy.raw > STAGE2_ENERGY {
                *movement_params = MovementParams::stage2();
            }
        },
        None => {},
    }
}

/// The frequency at which the player's character pulses, for its energy.
pub fn character_frequency(energy: Fixed) -> (r: Fixed)
    ensures
        r == frequency_for(energy),
{
    Fixed::new(250_000).plus(energy.over(Fixed::new(2_500_000))).clamp(
        Fixed::new(250_000),
        Fixed::new(980_000),
    )
}

/// The rate at which the music plays while a guardian is at `distance`.
pub fn playback_rate(distance: Fixed) -> (r: Fixed)
    ensures
        r == playback_for(distance),
{
    if distance.raw == 0 {
        Fixed::new(3_000_000)
    } else {
        Fixed::one().plus(Fixed::new(10_000_000).over(distance).times(Fixed::new(3_000_000))).clamp(
            Fixed::one(),
            Fixed::new(3_000_000),
        )
    }
}

/// The distance from the player's agent to the agent nearest to it in the
/// index, if that one is a guardian of the world.
pub fn guardian_proximity(game: &Game, kdtrees: &KdTrees) -> (r: Option<Fixed>)
    requires
        kdtrees.agent_kdtree.wf(),
    ensures
        r == nearest_guardian(game.agents@, kdtrees.agent_kdtree.entries@),
{
    let p: usize = match find_agent(&game.agents, MAIN_CHARACTER_ID) {
        Some(p) => p,
        None => {
            return None;
        },
    };
    match kdtrees.agent_kdtree.nearest_k(game.agents[p].position, 2) {
        Err(_) => None,
        Ok(near) => {
            let other: Option<Neighbor> = if near.len() >= 1 && near[0].id != MAIN_CHARACTER_ID {
                Some(near[0])
            } else if near.len() >= 2 && near[1].id != MAIN_CHARACTER_ID {
                Some(near[1])
            } else {
                None
            };
            match other {
                None => None,
                Some(nb) => match find_agent(&game.agents, nb.id) {
                    None => None,
                    Some(j) => if game.agents[j].is_guardian {
                        let root: u64 = isqrt_u128(nb.dist2);
                        Some(Fixed { raw: sat_i128(root as i128) })
                    } else {
                        None
                    },
                },
            }
        },
    }
}

/// The distance from the player's agent to the nearest other agent in an
/// index of `entries`, if that one is a guardian among `agents`.
pub open spec fn nearest_guardian(
    agents: Seq<Agent>,
    entries: Seq<crate::spatial::IndexEntry>,
) -> Option<Fixed> {
    match lookup(agents, MAIN_CHARACTER_ID) {
        None => None,
        Some(p) => if !agents[p].position.finite() {
            None
        } else {
            match crate::collision::first_other(
                crate::spatial::nearest_answers(entries, agents[p].position, 2),
                MAIN_CHARACTER_ID,
            ) {
                None => None,
                Some(nb) => match lookup(agents, nb.id) {
                    None => None,
                    Some(j) => if agents[j].is_guardian {
                        Some(crate::game::distance_of(nb.dist2 as int))
                    } else {
                        None
                    },
                },
            }
        },
    }
}

} // verus!
