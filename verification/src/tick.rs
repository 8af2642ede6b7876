//! One tick of the world, and what comes before the first: the player's
//! agent and the bodies of all.
//!
//! The passes of a tick run in one order: the index is built, the agents see
//! and forget, decide and act, move, and collide on an index of where they
//! then are; last they feel what hit them and settle.

use crate::agent::{retained, Agent, MAIN_CHARACTER_ID};
use crate::collision::{
    collided, collisions, each_agent_once, involved, resolved_pairs, CollisionEvent,
};
use crate::decision::{
    acted, agent_action, agent_decisions, has_decided, send_guardians, sent,
};
use crate::energy::{
    after_events, energy_ground_state, fed, lemma_after_events_keeps_ids, relaxed,
    update_agent_properties,
};
use crate::fixed::{Fixed, ONE};
use crate::game::{
    agent_entries, agent_ids, find_agent, forget, lemma_lookup_unique, lookup, same_but_memory,
    see, seen_by, update_agent_kdtree, Food, Game, GameStage, KdTrees, LEVEL_HEIGHT, LEVEL_WIDTH,
};
use crate::motion::{
    agents_movement, controlled, main_char_movement, moved, npc_drive, player_drive, steered,
    Controls, MovementParams,
};
use crate::random::random_in_range;
use crate::spatial::{within_entries, IndexEntry, Neighbor};
use crate::vec2::Vec2;
use vstd::prelude::*;

verus! {

/// Raw mass of the player's agent at the start.
pub const STARTING_MASS: i64 = 100_000;

/// Raw depth below the top of the world at which the player's agent starts.
pub const STARTING_DEPTH: i64 = 1_020_000_000;

/// Raw share of its mass within which an agent reaches food.
pub const FOOD_REACH: i64 = 500_000;

/// Raw distance that is added to every distance of a pull, so that food at
/// no distance is pulled with a finite force.
pub const PULL_SOFTENING: i64 = 10_000;

/// The ids of `foods`, in their order.
pub open spec fn food_ids(foods: Seq<Food>) -> Seq<u32> {
    foods.map_values(|f: Food| f.id)
}

/// Where in `foods` the first piece with the id `id` is.
pub fn find_food(foods: &Vec<Food>, id: u32) -> (r: Option<usize>)
    ensures
        match r {
            Some(p) => food_ids(foods@).index_of_first(id) == Some(p as int) && p < foods@.len(),
            None => food_ids(foods@).index_of_first(id) is None,
        },
{
    let ghost ids = food_ids(foods@);
    let mut i: usize = 0;
    while i < foods.len()
        invariant
            0 <= i <= foods.len(),
            ids == food_ids(foods@),
            forall|j: int| 0 <= j < i ==> ids[j] != id,
        decreases foods.len() - i,
    {
        if foods[i].id == id {
            proof {
                assert(ids[i as int] == id);
                assert(ids.contains(id));
                ids.index_of_first_ensures(id);
            }
            return Some(i);
        }
        i = i + 1;
    }
    proof {
        ids.index_of_first_ensures(id);
    }
    None
}

/// An agent and the food of the world after the agent has gone through the
/// first `upto` of the pieces `near` that it found: each that is still there
/// it has eaten, and that piece is gone.
pub open spec fn meal(agent: Agent, foods: Seq<Food>, near: Seq<Neighbor>, upto: int) -> (
    Agent,
    Seq<Food>,
)
    decreases upto,
{
    if upto <= 0 {
        (agent, foods)
    } else {
        let before = meal(agent, foods, near, upto - 1);
        match food_ids(before.1).index_of_first(near[upto - 1].id) {
            Some(p) => (fed(before.0, before.1[p]), before.1.remove(p)),
            None => before,
        }
    }
}

/// What agent `i` finds to eat in an index of `entries` over the food: the
/// pieces within a share of its mass around it; nothing at a position that
/// is not finite.
pub open spec fn found_food(agent: Agent, entries: Seq<IndexEntry>) -> Seq<Neighbor> {
    if agent.position.finite() {
        within_entries(entries, agent.position, agent.mass.prod(Fixed::of(FOOD_REACH as int))@)
    } else {
        Seq::empty()
    }
}

/// The agents and the food after the first `upto` agents have eaten, one
/// after the other, what each found.
pub open spec fn after_meals(
    agents: Seq<Agent>,
    foods: Seq<Food>,
    entries: Seq<IndexEntry>,
    upto: int,
) -> (Seq<Agent>, Seq<Food>)
    decreases upto,
{
    if upto <= 0 {
        (agents, foods)
    } else {
        let before = after_meals(agents, foods, entries, upto - 1);
        let near = found_food(before.0[upto - 1], entries);
        let after = meal(before.0[upto - 1], before.1, near, near.len() as int);
        (before.0.update(upto - 1, after.0), after.1)
    }
}

/// No piece of `foods` has a negative mass.
pub open spec fn wholesome(foods: Seq<Food>) -> bool {
    forall|k: int| 0 <= k < foods.len() ==> (#[trigger] foods[k]).mass@ >= 0
}

/// The agents eat: each in its turn eats the food that the index has within
/// its reach and that no agent has eaten before it; what is eaten is gone
/// from the world.
pub fn eat_food(game: &mut Game, kdtrees: &KdTrees)
    requires
        kdtrees.food_kdtree.wf(),
    ensures
        final(game).agents@ == after_meals(
            old(game).agents@,
            old(game).foods@,
            kdtrees.food_kdtree.entries@,
            old(game).agents@.len() as int,
        ).0,
        final(game).foods@ == after_meals(
            old(game).agents@,
            old(game).foods@,
            kdtrees.food_kdtree.entries@,
            old(game).agents@.len() as int,
        ).1,
        final(game).agents@.len() == old(game).agents@.len(),
        old(game).wf() && wholesome(old(game).foods@) ==> final(game).wf() && wholesome(
            final(game).foods@,
        ),
        final(game).time == old(game).time,
        final(game).game_stage == old(game).game_stage,
        final(game).won == old(game).won,
{
    let n: usize = game.agents.len();
    let ghost entries = kdtrees.food_kdtree.entries@;
    let mut i: usize = 0;
    while i < n
        invariant
            0 <= i <= n,
            n == game.agents@.len(),
            n == old(game).agents@.len(),
            entries == kdtrees.food_kdtree.entries@,
            kdtrees.food_kdtree.wf(),
            old(game).wf() && wholesome(old(game).foods@) ==> wholesome(game.foods@) && forall|
                j: int,
            |
                0 <= j < n ==> (#[trigger] game.agents@[j]).wf() && game.agents@[j].id == old(
                    game,
                ).agents@[j].id,
            (game.agents@, game.foods@) == after_meals(
                old(game).agents@,
                old(game).foods@,
                entries,
                i as int,
            ),
            game.time == old(game).time,
            game.game_stage == old(game).game_stage,
            game.won == old(game).won,
        decreases n - i,
    {
        let ghost agents_before = game.agents@;
        let ghost foods_before = game.foods@;
        let ghost eater = game.agents@[i as int];
        let reach: Fixed = game.agents[i].mass.times(Fixed::new(FOOD_REACH));
        match kdtrees.food_kdtree.within_radius(game.agents[i].position, reach) {
            Ok(near) => {
                let mut t: usize = 0;
                while t < near.len()
                    invariant
                        0 <= t <= near@.len(),
                        0 <= i < n,
                        n == game.agents@.len(),
                        n == agents_before.len(),
                        n == old(game).agents@.len(),
                        game.agents@ == agents_before.update(i as int, game.agents@[i as int]),
                        old(game).wf() && wholesome(old(game).foods@) ==> wholesome(game.foods@)
                            && forall|j: int|
                            0 <= j < n ==> (#[trigger] game.agents@[j]).wf() && game.agents@[j].id
                                == old(game).agents@[j].id,
                        (game.agents@[i as int], game.foods@) == meal(
                            eater,
                            foods_before,
                            near@,
                            t as int,
                        ),
                        game.time == old(game).time,
                        game.game_stage == old(game).game_stage,
                        game.won == old(game).won,
                    decreases near@.len() - t,
                {
                    match find_food(&game.foods, near[t].id) {
                        Some(p) => {
                            let food: Food = game.foods.remove(p);
                            game.agents[i].consume_food(&food);
                            proof {
                                assert(game.agents@ =~= agents_before.update(
                                    i as int,
                                    game.agents@[i as int],
                                ));
                            }
                        },
                        None => {},
                    }
                    t = t + 1;
                }
            },
            Err(_) => {
                proof {
                    assert(game.agents@ =~= agents_before.update(i as int, eater));
                }
            },
        }
        i = i + 1;
    }
    proof {
        if old(game).wf() && wholesome(old(game).foods@) {
            assert(agent_ids(game.agents@) =~= agent_ids(old(game).agents@));
        }
    }
}

impl Game {
    /// Gives every agent the unit vector of its heading: the agent at place
    /// `i` that of `dirs` at `i`.
    pub fn set_headings(&mut self, dirs: &Vec<Vec2>)
        requires
            dirs@.len() == old(self).agents@.len(),
        ensures
            final(self).agents@.len() == old(self).agents@.len(),
            forall|i: int|
                0 <= i < old(self).agents@.len() ==> #[trigger] final(self).agents@[i] == (Agent {
                    look_at_dir: dirs@[i],
                    ..old(self).agents@[i]
                }),
            old(self).wf() ==> final(self).wf(),
            final(self).time == old(self).time,
            final(self).game_stage == old(self).game_stage,
            final(self).foods == old(self).foods,
            final(self).won == old(self).won,
    {
        let n: usize = self.agents.len();
        let mut i: usize = 0;
        while i < n
            invariant
                0 <= i <= n,
                n == self.agents@.len(),
                n == old(self).agents@.len(),
                n == dirs@.len(),
                forall|j: int| i <= j < n ==> #[trigger] self.agents@[j] == old(self).agents@[j],
                forall|j: int|
                    0 <= j < i ==> #[trigger] self.agents@[j] == (Agent {
                        look_at_dir: dirs@[j],
                        ..old(self).agents@[j]
                    }),
                self.time == old(self).time,
                self.game_stage == old(self).game_stage,
                self.foods == old(self).foods,
                self.won == old(self).won,
            decreases n - i,
        {
            self.agents[i].set_look_at_dir(dirs[i]);
            i = i + 1;
        }
        proof {
            assert(agent_ids(self.agents@) =~= agent_ids(old(self).agents@));
        }
    }

    /// Puts the player's agent into the world: an agent of the bottom stage
    /// with the player's id and the starting mass, at rest in the middle of
    /// the width and just below the surface, with the body of `plan`. It
    /// takes the place of an agent that had its id.
    pub fn setup_player(&mut self, plan: &Vec<Vec2>)
        requires
            old(self).wf(),
        ensures
            final(self).wf(),
            lookup(final(self).agents@, MAIN_CHARACTER_ID) is Some,
            ({
                let player = final(self).agents@[lookup(final(self).agents@, MAIN_CHARACTER_ID)->Some_0];
                &&& player.id == MAIN_CHARACTER_ID
                &&& player.mass@ == STARTING_MASS
                &&& player.position == (Vec2 {
                    x: Fixed::of(LEVEL_WIDTH / 2),
                    y: Fixed::of(LEVEL_HEIGHT - STARTING_DEPTH),
                })
                &&& player.last_position == player.position
                &&& player.radius@ == crate::agent::radius_of(STARTING_MASS as int)
                &&& player.body@.len() == plan@.len()
                &&& forall|k: int|
                    0 <= k < plan@.len() ==> #[trigger] player.body@[k] == crate::agent::body_of(
                        plan@[k],
                        STARTING_MASS as int,
                    )
            }),
            final(self).agents@.len() == old(self).agents@.len() + (if lookup(
                old(self).agents@,
                MAIN_CHARACTER_ID,
            ) is Some {
                0int
            } else {
                1int
            }),
            final(self).time == old(self).time,
            final(self).game_stage == old(self).game_stage,
            final(self).foods == old(self).foods,
            final(self).won == old(self).won,
    {
        let mut player: Agent = Agent::gen_random(&GameStage::Bottom, MAIN_CHARACTER_ID);
        player.position = Vec2::new(
            Fixed::new(LEVEL_WIDTH / 2),
            Fixed::new(LEVEL_HEIGHT - STARTING_DEPTH),
        );
        player.last_position = player.position;
        player.target_position = player.position;
        player.mass = Fixed::new(STARTING_MASS);
        player.previous_mass = player.mass;
        player.update_mass_properties();
        player.set_body_plan(plan);
        let ghost made = player;
        proof {
            agent_ids(self.agents@).index_of_first_ensures(MAIN_CHARACTER_ID);
        }
        self.insert_agent(player);
        proof {
            let after = self.agents@;
            agent_ids(after).index_of_first_ensures(MAIN_CHARACTER_ID);
            let p = lookup(after, MAIN_CHARACTER_ID)->Some_0;
            let q = match lookup(old(self).agents@, MAIN_CHARACTER_ID) {
                Some(q) => q,
                None => old(self).agents@.len() as int,
            };
            assert(after[q] == made);
            assert(agent_ids(after)[q] == MAIN_CHARACTER_ID);
            assert(agent_ids(after)[p] == MAIN_CHARACTER_ID);
            assert(p == q);
        }
    }

    /// Gives every agent but the player's a body: a guardian that of
    /// `guardian_plan`, each other one that of a plan drawn from `plans`;
    /// with no plans to draw from, the others keep what they have.
    pub fn setup_bodies(&mut self, plans: &Vec<Vec<Vec2>>, guardian_plan: &Vec<Vec2>)
        ensures
            final(self).agents@.len() == old(self).agents@.len(),
            forall|i: int|
                0 <= i < old(self).agents@.len() ==> {
                    let before = old(self).agents@[i];
                    let after = #[trigger] final(self).agents@[i];
                    &&& after == (Agent { body: after.body, ..before })
                    &&& before.id == MAIN_CHARACTER_ID ==> after == before
                    &&& before.id != MAIN_CHARACTER_ID && before.is_guardian ==> has_body_of(
                        after,
                        guardian_plan@,
                    )
                    &&& before.id != MAIN_CHARACTER_ID && !before.is_guardian && plans@.len() > 0
                        ==> exists|c: int|
                        0 <= c < plans@.len() && has_body_of(after, #[trigger] plans@[c]@)
                    &&& before.id != MAIN_CHARACTER_ID && !before.is_guardian && plans@.len() == 0
                        ==> after == before
                },
            old(self).wf() ==> final(self).wf(),
            final(self).time == old(self).time,
            final(self).game_stage == old(self).game_stage,
            final(self).foods == old(self).foods,
            final(self).won == old(self).won,
    {
        let n: usize = self.agents.len();
        let mut i: usize = 0;
        while i < n
            invariant
                0 <= i <= n,
                n == self.agents@.len(),
                n == old(self).agents@.len(),
                forall|j: int| i <= j < n ==> #[trigger] self.agents@[j] == old(self).agents@[j],
                forall|j: int|
                    0 <= j < i ==> {
                        let before = old(self).agents@[j];
                        let after = #[trigger] self.agents@[j];
                        &&& after == (Agent { body: after.body, ..before })
                        &&& before.id == MAIN_CHARACTER_ID ==> after == before
                        &&& before.id != MAIN_CHARACTER_ID && before.is_guardian ==> has_body_of(
                            after,
                            guardian_plan@,
                        )
                        &&& before.id != MAIN_CHARACTER_ID && !before.is_guardian && plans@.len()
                            > 0 ==> exists|c: int|
                            0 <= c < plans@.len() && has_body_of(after, #[trigger] plans@[c]@)
                        &&& before.id != MAIN_CHARACTER_ID && !before.is_guardian && plans@.len()
                            == 0 ==> after == before
                    },
                self.time == old(self).time,
                self.game_stage == old(self).game_stage,
                self.foods == old(self).foods,
                self.won == old(self).won,
            decreases n - i,
        {
            if self.agents[i].id != MAIN_CHARACTER_ID {
                if self.agents[i].is_guardian {
                    self.agents[i].set_body_plan(guardian_plan);
                } else if plans.len() > 0 && plans.len() <= 0x7fff_ffff {
                    let c: i64 = random_in_range(0, plans.len() as i64);
                    self.agents[i].set_body_plan(&plans[c as usize]);
                    proof {
                        assert(has_body_of(self.agents@[i as int], plans@[c as int]@));
                    }
                } else if plans.len() > 0 {
                    self.agents[i].set_body_plan(&plans[0]);
                    proof {
                        assert(has_body_of(self.agents@[i as int], plans@[0]@));
                    }
                }
            }
            i = i + 1;
        }
        proof {
            assert(agent_ids(self.agents@) =~= agent_ids(old(self).agents@));
        }
    }
}

/// `agent` has the body that `plan` gives an agent of its mass.
pub open spec fn has_body_of(agent: Agent, plan: Seq<Vec2>) -> bool {
    &&& agent.body@.len() == plan.len()
    &&& forall|k: int|
        0 <= k < plan.len() ==> #[trigger] agent.body@[k] == crate::agent::body_of(
            plan[k],
            agent.mass@,
        )
}

/// The player's agent takes the controls of one tick at `time`; the others
/// stay as they are, and so do all in a world without that agent.
pub fn main_character_inputs(
    game: &mut Game,
    controls: &Controls,
    time: Fixed,
    params: &MovementParams,
)
    ensures
        final(game).agents@.len() == old(game).agents@.len(),
        forall|i: int|
            0 <= i < old(game).agents@.len() ==> #[trigger] final(game).agents@[i] == (if Some(i)
                == lookup(old(game).agents@, MAIN_CHARACTER_ID) {
                crate::motion::controlled(old(game).agents@[i], *controls, time, *params)
            } else {
                old(game).agents@[i]
            }),
        old(game).wf() ==> final(game).wf(),
        final(game).time == old(game).time,
        final(game).game_stage == old(game).game_stage,
        final(game).foods == old(game).foods,
        final(game).won == old(game).won,
{
    match find_agent(&game.agents, MAIN_CHARACTER_ID) {
        Some(p) => {
            game.agents[p].apply_controls(controls, time, params);
            proof {
                assert(agent_ids(game.agents@) =~= agent_ids(old(game).agents@));
            }
        },
        None => {},
    }
}

/// The pull on a piece of food at `food_position` of raw mass `food_mass`
/// by an agent of raw mass `mass` at `position`, at the distance `distance`:
/// toward the agent, stronger the nearer and the heavier the agent is and
/// the lighter the food.
pub open spec fn pull_on(
    position: Vec2,
    mass: Fixed,
    food_position: Vec2,
    food_mass: Fixed,
    distance: Fixed,
) -> Vec2 {
    let direction = crate::vec2::vec_minus(position, food_position).unit();
    let amplitude = Fixed::of(ONE as int).ratio(distance.sum(Fixed::of(PULL_SOFTENING as int))).prod(
        mass,
    ).ratio(food_mass);
    crate::vec2::vec_scale(direction, amplitude@)
}

/// The food after an agent at `position` of mass `mass` has pulled on the
/// first `upto` of the pieces `near` within its reach: each that the world
/// has, and that has a mass, is accelerated toward the agent.
pub open spec fn pulled(
    foods: Seq<Food>,
    position: Vec2,
    mass: Fixed,
    near: Seq<Neighbor>,
    upto: int,
) -> Seq<Food>
    decreases upto,
{
    if upto <= 0 {
        foods
    } else {
        let before = pulled(foods, position, mass, near, upto - 1);
        match food_ids(before).index_of_first(near[upto - 1].id) {
            Some(p) => if before[p].mass@ != 0 {
                before.update(
                    p,
                    Food {
                        acc: crate::vec2::vec_plus(
                            before[p].acc,
                            pull_on(
                                position,
                                mass,
                                before[p].position,
                                before[p].mass,
                                crate::game::distance_of(near[upto - 1].dist2 as int),
                            ),
                        ),
                        ..before[p]
                    },
                )
            } else {
                before
            },
            None => before,
        }
    }
}

/// The food that an agent pulls on: what an index of `entries` has within
/// the agent's mass around it; nothing at a position that is not finite.
pub open spec fn within_pull(agent: Agent, entries: Seq<IndexEntry>) -> Seq<Neighbor> {
    if agent.position.finite() {
        within_entries(entries, agent.position, agent.mass@)
    } else {
        Seq::empty()
    }
}

/// The food after the first `upto` agents have pulled on what is within
/// their reach.
pub open spec fn after_pulls(
    agents: Seq<Agent>,
    foods: Seq<Food>,
    entries: Seq<IndexEntry>,
    upto: int,
) -> Seq<Food>
    decreases upto,
{
    if upto <= 0 {
        foods
    } else {
        let near = within_pull(agents[upto - 1], entries);
        pulled(
            after_pulls(agents, foods, entries, upto - 1),
            agents[upto - 1].position,
            agents[upto - 1].mass,
            near,
            near.len() as int,
        )
    }
}

/// Every agent pulls on the food that the index has within its reach: each
/// such piece is accelerated toward it. The agents stay as they are.
pub fn compute_acc_food(game: &mut Game, kdtrees: &KdTrees)
    requires
        kdtrees.food_kdtree.wf(),
    ensures
        final(game).foods@ == after_pulls(
            old(game).agents@,
            old(game).foods@,
            kdtrees.food_kdtree.entries@,
            old(game).agents@.len() as int,
        ),
        final(game).agents == old(game).agents,
        final(game).time == old(game).time,
        final(game).game_stage == old(game).game_stage,
        final(game).won == old(game).won,
{
    let n: usize = game.agents.len();
    let ghost entries = kdtrees.food_kdtree.entries@;
    let mut i: usize = 0;
    while i < n
        invariant
            0 <= i <= n,
            n == game.agents@.len(),
            game.agents == old(game).agents,
            entries == kdtrees.food_kdtree.entries@,
            kdtrees.food_kdtree.wf(),
            game.foods@ == after_pulls(old(game).agents@, old(game).foods@, entries, i as int),
            game.time == old(game).time,
            game.game_stage == old(game).game_stage,
            game.won == old(game).won,
        decreases n - i,
    {
        let position: Vec2 = game.agents[i].position;
        let mass: Fixed = game.agents[i].mass;
        let ghost foods_before = game.foods@;
        match kdtrees.food_kdtree.within_radius(position, mass) {
            Ok(near) => {
                let mut t: usize = 0;
                while t < near.len()
                    invariant
                        0 <= t <= near@.len(),
                        game.agents == old(game).agents,
                        game.foods@ == pulled(foods_before, position, mass, near@, t as int),
                        game.time == old(game).time,
                        game.game_stage == old(game).game_stage,
                        game.won == old(game).won,
                    decreases near@.len() - t,
                {
                    match find_food(&game.foods, near[t].id) {
                        Some(p) => {
                            let food: Food = game.foods[p];
                            if food.mass.raw != 0 {
                                let root: u64 = crate::fixed::isqrt_u128(near[t].dist2);
                                let distance: Fixed = Fixed {
                                    raw: crate::fixed::sat_i128(root as i128),
                                };
                                let softened: Fixed = distance.plus(Fixed::new(PULL_SOFTENING));
                                let direction: Vec2 = position.minus(food.position).normalize();
                                if softened.raw != 0 {
                                    let amplitude: Fixed = Fixed::new(ONE).over(softened).times(
                                        mass,
                                    ).over(food.mass);
                                    let ghost before = game.foods@;
                                    game.foods[p].acc = food.acc.plus(direction.scale(amplitude));
                                    proof {
                                        assert(game.foods@ =~= before.update(
                                            p as int,
                                            Food { acc: game.foods@[p as int].acc, ..before[p as int] },
                                        ));
                                    }
                                } else {
                                    proof {
                                        // a distance is never negative
                                        crate::fixed::lemma_isqrt_nonnegative(near@[t as int].dist2 as int);
                                    }
                                }
                            }
                        },
                        None => {},
                    }
                    t = t + 1;
                }
            },
            Err(_) => {},
        }
        i = i + 1;
    }
}

/// The world has as many agents as before, is well formed, and but for its
/// agents it is as it was.
pub open spec fn carried_on(before: Game, after: Game) -> bool {
    &&& after.wf()
    &&& after.agents@.len() == before.agents@.len()
    &&& after.time == before.time
    &&& after.game_stage == before.game_stage
    &&& after.foods == before.foods
    &&& after.won == before.won
}

/// `after` are the agents `before` with the lost ones put back: an agent at
/// a position that is not finite is now somewhere in the world, and nothing
/// else has changed.
#[verifier::opaque]
pub open spec fn put_back(before: Seq<Agent>, after: Seq<Agent>) -> bool {
    &&& after.len() == before.len()
    &&& forall|i: int|
        0 <= i < before.len() ==> {
            let lost = before[i];
            let found = #[trigger] after[i];
            if lost.position.finite() {
                found == lost
            } else {
                &&& found == (Agent { position: found.position, ..lost })
                &&& 0 <= found.position.x@ < LEVEL_WIDTH
                &&& 0 <= found.position.y@ < LEVEL_HEIGHT
            }
        }
}

/// The index is built on where the agents are, the lost ones put back.
fn pass_index(kdtrees: &mut KdTrees, game: &mut Game)
    requires
        old(game).wf(),
    ensures
        carried_on(*old(game), *final(game)),
        put_back(old(game).agents@, final(game).agents@),
        final(kdtrees).agent_kdtree.entries@ == agent_entries(final(game).agents@),
        final(kdtrees).agent_kdtree.wf(),
        final(kdtrees).item_kdtree == old(kdtrees).item_kdtree,
        final(kdtrees).food_kdtree == old(kdtrees).food_kdtree,
{
    update_agent_kdtree(kdtrees, game);
    proof {
        reveal(put_back);
        assert(agent_ids(game.agents@) =~= agent_ids(old(game).agents@));
    }
}

/// Agent `i` after the pass of sensing at `time`: it has noted what it saw
/// in an index of `entries`, and then, as chance had it, kept all of its
/// memory or forgotten what was too old. Nothing but its memory has changed.
pub open spec fn has_sensed(
    before: Seq<Agent>,
    entries: Seq<IndexEntry>,
    i: int,
    after: Agent,
    time: Fixed,
) -> bool {
    let seen = seen_by(before, entries, i, time);
    &&& same_but_memory(after, before[i])
    &&& (after.sensors.agent_sight@ == seen || after.sensors.agent_sight@ == retained(
        seen,
        time,
        before[i].memory_time,
    ))
}

/// `after` are the agents `before` after the pass of sensing at `time` on an
/// index of `entries`: each of them has sensed.
#[verifier::opaque]
pub open spec fn all_sensed(
    before: Seq<Agent>,
    entries: Seq<IndexEntry>,
    after: Seq<Agent>,
    time: Fixed,
) -> bool {
    &&& after.len() == before.len()
    &&& forall|i: int|
        0 <= i < before.len() ==> has_sensed(before, entries, i, #[trigger] after[i], time)
}

/// The agents see and forget: each notes every other agent that the index
/// has within its range of sight, and then, by chance, forgets what is too
/// old.
fn pass_sensing(game: &mut Game, kdtrees: &KdTrees, time: Fixed)
    requires
        old(game).wf(),
        kdtrees.agent_kdtree.wf(),
    ensures
        carried_on(*old(game), *final(game)),
        all_sensed(old(game).agents@, kdtrees.agent_kdtree.entries@, final(game).agents@, time),
{
    see(game, kdtrees, time);
    let ghost seen = game.agents@;
    forget(game, time);
    proof {
        reveal(all_sensed);
        assert forall|i: int| 0 <= i < old(game).agents@.len() implies has_sensed(
            old(game).agents@,
            kdtrees.agent_kdtree.entries@,
            i,
            #[trigger] game.agents@[i],
            time,
        ) by {
            assert(same_but_memory(seen[i], old(game).agents@[i]));
            assert(same_but_memory(game.agents@[i], seen[i]));
        }
    }
}

/// Agent `i` after the pass of deciding at `time`: it has decided, has been
/// sent if it is a guardian, and has turned its goal into a target, with the
/// agents where they were before the pass.
pub open spec fn has_deliberated(before: Seq<Agent>, i: int, after: Agent, time: Fixed) -> bool {
    exists|chosen: Agent| #[trigger]
        has_decided(before[i], chosen, time) && acted(
            sent(chosen, before, time),
            after,
            agent_entries(before),
        )
}

/// `after` are the agents `before` after the pass of deciding at `time`:
/// each of them has deliberated.
#[verifier::opaque]
pub open spec fn all_deliberated(before: Seq<Agent>, after: Seq<Agent>, time: Fixed) -> bool {
    &&& after.len() == before.len()
    &&& forall|i: int|
        0 <= i < before.len() ==> has_deliberated(before, i, #[trigger] after[i], time)
}

/// The agents decide, the guardians are sent, and all act.
fn pass_deciding(game: &mut Game, time: Fixed)
    requires
        old(game).wf(),
    ensures
        carried_on(*old(game), *final(game)),
        all_deliberated(old(game).agents@, final(game).agents@, time),
{
    let ghost before = game.agents@;
    agent_decisions(game, time);
    let ghost chosen = game.agents@;
    proof {
        assert forall|i: int| 0 <= i < before.len() implies (#[trigger] chosen[i]).id
            == before[i].id && chosen[i].position == before[i].position by {}
        assert(agent_ids(chosen) =~= agent_ids(before));
        assert(agent_entries(chosen) =~= agent_entries(before));
    }
    send_guardians(game, time);
    let ghost posted = game.agents@;
    proof {
        assert forall|i: int| 0 <= i < before.len() implies #[trigger] posted[i] == sent(
            chosen[i],
            before,
            time,
        ) && posted[i].id == before[i].id && posted[i].position == before[i].position by {
            agent_ids(before).index_of_first_ensures(MAIN_CHARACTER_ID);
        }
        assert(agent_entries(posted) =~= agent_entries(before));
    }
    agent_action(game);
    proof {
        reveal(all_deliberated);
        assert forall|i: int| 0 <= i < before.len() implies has_deliberated(
            before,
            i,
            #[trigger] game.agents@[i],
            time,
        ) by {
            assert(has_decided(before[i], chosen[i], time));
            assert(acted(posted[i], game.agents@[i], agent_entries(before)));
        }
    }
}

/// Agent `agent` after the pass of motion of length `dt` at `time`: the
/// player's agent has moved as the player's does, and every other agent has
/// headed for its target and moved as the others do.
pub open spec fn has_moved(agent: Agent, params: MovementParams, dt: Fixed, time: Fixed) -> Agent {
    if agent.id == MAIN_CHARACTER_ID {
        moved(agent, params, player_drive(agent, params), dt, time)
    } else {
        let headed = steered(agent, agent.target_position);
        moved(headed, params, npc_drive(headed, params), dt, time)
    }
}

/// `after` are the agents `before` after the player's agent has taken the
/// `controls` at `time`: that one is under control, the others are as they
/// were.
#[verifier::opaque]
pub open spec fn all_controlled(
    before: Seq<Agent>,
    after: Seq<Agent>,
    controls: Controls,
    time: Fixed,
    params: MovementParams,
) -> bool {
    &&& after.len() == before.len()
    &&& forall|i: int|
        0 <= i < before.len() ==> #[trigger] after[i] == (if before[i].id == MAIN_CHARACTER_ID {
            controlled(before[i], controls, time, params)
        } else {
            before[i]
        })
}

/// The player's agent takes the controls.
fn pass_controls(game: &mut Game, controls: &Controls, time: Fixed, params: &MovementParams)
    requires
        old(game).wf(),
    ensures
        carried_on(*old(game), *final(game)),
        all_controlled(old(game).agents@, final(game).agents@, *controls, time, *params),
{
    let ghost before = game.agents@;
    main_character_inputs(game, controls, time, params);
    proof {
        reveal(all_controlled);
        assert forall|i: int| 0 <= i < before.len() implies #[trigger] game.agents@[i] == (
        if before[i].id == MAIN_CHARACTER_ID {
            controlled(before[i], *controls, time, *params)
        } else {
            before[i]
        }) by {
            lemma_lookup_unique(before, MAIN_CHARACTER_ID, i);
        }
    }
}

/// `after` are the agents `before` after the pass of motion of length `dt`
/// at `time`: each of them has moved.
#[verifier::opaque]
pub open spec fn all_moved(
    before: Seq<Agent>,
    after: Seq<Agent>,
    params: MovementParams,
    dt: Fixed,
    time: Fixed,
) -> bool {
    &&& after.len() == before.len()
    &&& forall|i: int|
        0 <= i < before.len() ==> #[trigger] after[i] == has_moved(before[i], params, dt, time)
}

/// All agents move: the player's agent as the player's does, the others
/// toward their targets.
fn pass_motion(game: &mut Game, params: &MovementParams, time: Fixed, dt: Fixed)
    requires
        old(game).wf(),
    ensures
        carried_on(*old(game), *final(game)),
        all_moved(old(game).agents@, final(game).agents@, *params, dt, time),
{
    let ghost before = game.agents@;
    main_char_movement(game, time, dt, params);
    let ghost mid = game.agents@;
    agents_movement(game, time, dt, params);
    proof {
        reveal(all_moved);
        assert forall|i: int| 0 <= i < before.len() implies #[trigger] game.agents@[i]
            == has_moved(before[i], *params, dt, time) by {
            lemma_lookup_unique(before, MAIN_CHARACTER_ID, i);
            assert(mid[i].id == before[i].id);
        }
    }
}

/// The agents collide on the index, and the collisions are reported.
fn pass_collisions(game: &mut Game, kdtrees: &KdTrees) -> (events: Vec<CollisionEvent>)
    requires
        old(game).wf(),
        kdtrees.agent_kdtree.wf(),
    ensures
        carried_on(*old(game), *final(game)),
        collided(
            old(game).agents@,
            kdtrees.agent_kdtree.entries@,
            final(game).agents@,
            events@,
        ),
        events@.len() % 2 == 0,
        each_agent_once(events@),
{
    collisions(game, kdtrees)
}

/// `after` are the agents `before` after the pass of energy at `time` on the
/// collisions `events`: they have felt every event once, in the order of the
/// events, and each has then settled.
#[verifier::opaque]
pub open spec fn all_settled(
    before: Seq<Agent>,
    events: Seq<CollisionEvent>,
    after: Seq<Agent>,
    time: Fixed,
) -> bool {
    &&& after.len() == before.len()
    &&& forall|i: int|
        0 <= i < before.len() ==> #[trigger] after[i] == relaxed(
            after_events(before, events, time, events.len() as int)[i],
            time,
        )
}

/// The agents feel the collisions `events` at `time`, every event once and
/// in its order, and then settle.
fn pass_energy(game: &mut Game, events: &Vec<CollisionEvent>, time: Fixed)
    requires
        old(game).wf(),
    ensures
        carried_on(*old(game), *final(game)),
        all_settled(old(game).agents@, events@, final(game).agents@, time),
{
    update_agent_properties(game, events, time);
    energy_ground_state(game, time);
    proof {
        reveal(all_settled);
    }
}

/// The agents of a world between the passes of one tick, each field after
/// the pass that it is named for.
pub struct Stages {
    /// The lost agents are put back, and the index is built.
    pub found: Seq<Agent>,
    /// The agents have seen and forgotten.
    pub sensed: Seq<Agent>,
    /// They have decided, the guardians are sent, and all have acted.
    pub decided: Seq<Agent>,
    /// The player's agent has taken the controls.
    pub steered: Seq<Agent>,
    /// All have moved.
    pub moved: Seq<Agent>,
    /// Those that the motion lost are put back, and the index is built again.
    pub placed: Seq<Agent>,
    /// They have collided.
    pub struck: Seq<Agent>,
}

impl Stages {
    /// At every stage there are `n` agents.
    pub open spec fn of_length(self, n: nat) -> bool {
        &&& self.found.len() == n
        &&& self.sensed.len() == n
        &&& self.decided.len() == n
        &&& self.steered.len() == n
        &&& self.moved.len() == n
        &&& self.placed.len() == n
        &&& self.struck.len() == n
    }
}

/// One tick at `time`, of length `dt`, with the player's `controls`, makes
/// `after` of the agents `before`, by way of `stages`; it leaves an index of
/// `index` and reports `events`. Every pass works on what the pass before it
/// left: sensing on the index of the agents found, the collisions on the
/// index of the agents placed after the motion, which is the index that the
/// tick leaves.
///
/// What a pass makes of the agents is stated by a predicate of its own, which
/// is opaque: a proof reveals that of the pass it is about, as
/// [`lemma_tick_keeps_the_agents`] does for each.
pub open spec fn ticked(
    before: Seq<Agent>,
    after: Seq<Agent>,
    index: Seq<IndexEntry>,
    events: Seq<CollisionEvent>,
    params: MovementParams,
    controls: Controls,
    time: Fixed,
    dt: Fixed,
    stages: Stages,
) -> bool {
    &&& stages.of_length(before.len())
    &&& after.len() == before.len()
    &&& put_back(before, stages.found)
    &&& all_sensed(stages.found, agent_entries(stages.found), stages.sensed, time)
    &&& all_deliberated(stages.sensed, stages.decided, time)
    &&& all_controlled(stages.decided, stages.steered, controls, time, params)
    &&& all_moved(stages.steered, stages.moved, params, dt, time)
    &&& put_back(stages.moved, stages.placed)
    &&& index == agent_entries(stages.placed)
    &&& collided(stages.placed, index, stages.struck, events)
    &&& all_settled(stages.struck, events, after, time)
}

/// `after` are as many agents as `before`, each with the id of the one in
/// its place.
pub open spec fn same_ids(before: Seq<Agent>, after: Seq<Agent>) -> bool {
    &&& after.len() == before.len()
    &&& forall|i: int| 0 <= i < before.len() ==> (#[trigger] after[i]).id == before[i].id
}

/// Putting the lost agents back leaves every agent its id.
proof fn lemma_put_back_keeps_ids(before: Seq<Agent>, after: Seq<Agent>)
    requires
        put_back(before, after),
    ensures
        same_ids(before, after),
{
    reveal(put_back);
}

/// Sensing leaves every agent its id.
proof fn lemma_sensing_keeps_ids(
    before: Seq<Agent>,
    entries: Seq<IndexEntry>,
    after: Seq<Agent>,
    time: Fixed,
)
    requires
        all_sensed(before, entries, after, time),
    ensures
        same_ids(before, after),
{
    reveal(all_sensed);
    assert forall|i: int| 0 <= i < before.len() implies (#[trigger] after[i]).id
        == before[i].id by {
        assert(has_sensed(before, entries, i, after[i], time));
    }
}

/// Deciding leaves every agent its id.
proof fn lemma_deciding_keeps_ids(before: Seq<Agent>, after: Seq<Agent>, time: Fixed)
    requires
        all_deliberated(before, after, time),
    ensures
        same_ids(before, after),
{
    reveal(all_deliberated);
    assert forall|i: int| 0 <= i < before.len() implies (#[trigger] after[i]).id
        == before[i].id by {
        assert(has_deliberated(before, i, after[i], time));
        let chosen = choose|chosen: Agent| #[trigger]
            has_decided(before[i], chosen, time) && acted(
                sent(chosen, before, time),
                after[i],
                agent_entries(before),
            );
        assert(chosen.id == before[i].id);
        assert(sent(chosen, before, time).id == chosen.id);
    }
}

/// The controls leave every agent its id.
proof fn lemma_controls_keep_ids(
    before: Seq<Agent>,
    after: Seq<Agent>,
    controls: Controls,
    time: Fixed,
    params: MovementParams,
)
    requires
        all_controlled(before, after, controls, time, params),
    ensures
        same_ids(before, after),
{
    reveal(all_controlled);
}

/// Motion leaves every agent its id.
proof fn lemma_motion_keeps_ids(
    before: Seq<Agent>,
    after: Seq<Agent>,
    params: MovementParams,
    dt: Fixed,
    time: Fixed,
)
    requires
        all_moved(before, after, params, dt, time),
    ensures
        same_ids(before, after),
{
    reveal(all_moved);
}

/// Collisions leave every agent its id.
proof fn lemma_collisions_keep_ids(
    before: Seq<Agent>,
    entries: Seq<IndexEntry>,
    after: Seq<Agent>,
    events: Seq<CollisionEvent>,
)
    requires
        collided(before, entries, after, events),
    ensures
        same_ids(before, after),
{
    let pairs = resolved_pairs(before, entries, before.len() as int);
    assert forall|t: int| 0 <= t < before.len() implies (#[trigger] after[t]).id
        == before[t].id by {
        if involved(pairs, t) {
            let p = choose|p: int|
                0 <= p < pairs.len() && (#[trigger] pairs[p].0 == t || pairs[p].1 == t);
            assert(0 <= pairs[p].0 < before.len() && 0 <= pairs[p].1 < before.len());
        }
    }
}

/// Settling leaves every agent its id.
proof fn lemma_settling_keeps_ids(
    before: Seq<Agent>,
    events: Seq<CollisionEvent>,
    after: Seq<Agent>,
    time: Fixed,
)
    requires
        all_settled(before, events, after, time),
    ensures
        same_ids(before, after),
{
    reveal(all_settled);
    lemma_after_events_keeps_ids(before, events, time, events.len() as int);
}

/// A tick leaves the world its agents: as many as there were, in their
/// order, each with its id; and every event that it reports is about two of
/// them.
pub proof fn lemma_tick_keeps_the_agents(
    before: Seq<Agent>,
    after: Seq<Agent>,
    index: Seq<IndexEntry>,
    events: Seq<CollisionEvent>,
    params: MovementParams,
    controls: Controls,
    time: Fixed,
    dt: Fixed,
    stages: Stages,
)
    requires
        ticked(before, after, index, events, params, controls, time, dt, stages),
    ensures
        agent_ids(after) == agent_ids(before),
        forall|e: int|
            0 <= e < events.len() ==> agent_ids(before).contains((#[trigger] events[e]).agent_id)
                && agent_ids(before).contains(events[e].other_agent_id),
{
    lemma_put_back_keeps_ids(before, stages.found);
    lemma_sensing_keeps_ids(stages.found, agent_entries(stages.found), stages.sensed, time);
    lemma_deciding_keeps_ids(stages.sensed, stages.decided, time);
    lemma_controls_keep_ids(stages.decided, stages.steered, controls, time, params);
    lemma_motion_keeps_ids(stages.steered, stages.moved, params, dt, time);
    lemma_put_back_keeps_ids(stages.moved, stages.placed);
    lemma_collisions_keep_ids(stages.placed, index, stages.struck, events);
    lemma_settling_keeps_ids(stages.struck, events, after, time);
    assert(same_ids(before, stages.placed));
    assert(agent_ids(after) =~= agent_ids(before));
    let pairs = resolved_pairs(stages.placed, index, stages.placed.len() as int);
    assert forall|e: int| 0 <= e < events.len() implies agent_ids(before).contains(
        (#[trigger] events[e]).agent_id,
    ) && agent_ids(before).contains(events[e].other_agent_id) by {
        let pair = pairs[e / 2];
        assert(0 <= pair.0 < before.len() && 0 <= pair.1 < before.len());
        assert(agent_ids(before)[pair.0] == stages.placed[pair.0].id);
        assert(agent_ids(before)[pair.1] == stages.placed[pair.1].id);
    }
}

/// One tick of the world at `time`, of length `dt`, with the player's
/// `controls`. The passes run in their order: the agents that are lost are
/// put back and the index is built; the agents see and forget; they decide,
/// the guardians are sent, and all act; the player's agent takes the
/// controls and all move; the index is built again and the agents collide;
/// they feel the collisions, which are returned, and settle. What the passes
/// draw by chance is left open: [`ticked`] says what holds of every outcome.
///
/// Every agent moves along the unit vector of its heading that it carries:
/// the host gives it with [`Game::set_headings`] before the tick.
///
/// The world keeps its agents and stays well formed, and no two of the
/// events are about the same agent.
pub fn tick(
    game: &mut Game,
    kdtrees: &mut KdTrees,
    params: &MovementParams,
    controls: &Controls,
    time: Fixed,
    dt: Fixed,
) -> (events: Vec<CollisionEvent>)
    requires
        old(game).wf(),
    ensures
        final(game).wf(),
        final(game).agents@.len() == old(game).agents@.len(),
        final(kdtrees).agent_kdtree.wf(),
        final(kdtrees).item_kdtree == old(kdtrees).item_kdtree,
        final(kdtrees).food_kdtree == old(kdtrees).food_kdtree,
        exists|stages: Stages|
            ticked(
                old(game).agents@,
                final(game).agents@,
                final(kdtrees).agent_kdtree.entries@,
                events@,
                *params,
                *controls,
                time,
                dt,
                stages,
            ),
        events@.len() % 2 == 0,
        each_agent_once(events@),
        final(game).time == time,
        final(game).game_stage == old(game).game_stage,
        final(game).foods == old(game).foods,
        final(game).won == old(game).won,
{
    game.time = time;
    pass_index(kdtrees, game);
    let ghost found = game.agents@;
    pass_sensing(game, kdtrees, time);
    let ghost sensed = game.agents@;
    pass_deciding(game, time);
    let ghost decided = game.agents@;
    pass_controls(game, controls, time, params);
    let ghost steered = game.agents@;
    pass_motion(game, params, time, dt);
    let ghost moved = game.agents@;
    pass_index(kdtrees, game);
    let ghost placed = game.agents@;
    let events: Vec<CollisionEvent> = pass_collisions(game, kdtrees);
    let ghost struck = game.agents@;
    pass_energy(game, &events, time);
    proof {
        let stages = Stages { found, sensed, decided, steered, moved, placed, struck };
        assert(ticked(
            old(game).agents@,
            game.agents@,
            kdtrees.agent_kdtree.entries@,
            events@,
            *params,
            *controls,
            time,
            dt,
            stages,
        ));
    }
    events
}

} // verus!
