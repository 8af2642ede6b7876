//! The world: its agents and food, the indexes over them, and the passes
//! that let the agents see and forget.

use crate::agent::{remembered, retained, Agent, AgentSight, Sensors};
use crate::fixed::{isqrt, isqrt_u128, sat, sat_i128, Fixed};
use crate::random::{random_between, random_units};
use crate::spatial::{finite_entries, within_entries, IndexEntry, Neighbor, SpatialIndex};
use crate::vec2::Vec2;
use vstd::prelude::*;

verus! {

pub const NUM_AGENTS: usize = 100;

pub const NUM_ITEMS: usize = 10;

pub const NUM_FOODS: usize = 5000;

/// Raw width of the world.
pub const LEVEL_WIDTH: i64 = 5_000_000_000;

/// Raw height of the world.
pub const LEVEL_HEIGHT: i64 = 7_000_000_000;

/// Raw share of the height below which the bottom stage lies.
pub const BOTTOM_STAGE_LIMIT: i64 = 50_000;

/// Raw share of the height below which the middle stage lies.
pub const MID_STAGE_LIMIT: i64 = 200_000;

/// Raw share of the height below which the top stage lies.
pub const TOP_STAGE_LIMIT: i64 = 980_000;

/// Raw share of the width at which the bottom stage starts.
pub const BOTTOM_LIMIT_X_MIN: i64 = 300_000;

/// Raw share of the width at which the bottom stage ends.
pub const BOTTOM_LIMIT_X_MAX: i64 = 700_000;

/// Raw chance that an agent goes through its memory in one tick.
pub const FORGET_CHANCE: i64 = 100_000;

#[derive(Clone, Copy, Debug, PartialEq, Eq, Structural)]
pub enum GameStage {
    Bottom,
    Mid,
    Top,
}

/// A piece of food: it lies where it is until an agent takes it.
#[derive(Clone, Copy, Debug, PartialEq, Eq, Structural)]
pub struct Food {
    pub position: Vec2,
    pub energy: Fixed,
    pub mass: Fixed,
    pub id: u32,
    pub acc: Vec2,
}

/// The state of the world. No two agents have one id.
#[derive(Debug)]
pub struct Game {
    pub time: Fixed,
    pub game_stage: GameStage,
    pub agents: Vec<Agent>,
    pub foods: Vec<Food>,
    pub won: bool,
}

/// The indexes of one tick: over the agents, the items and the food.
#[derive(Debug)]
pub struct KdTrees {
    pub agent_kdtree: SpatialIndex,
    pub item_kdtree: SpatialIndex,
    pub food_kdtree: SpatialIndex,
}

/// The ids of `agents`, in their order.
pub open spec fn agent_ids(agents: Seq<Agent>) -> Seq<u32> {
    agents.map_values(|a: Agent| a.id)
}

/// Where in `agents` the agent `id` is.
pub open spec fn lookup(agents: Seq<Agent>, id: u32) -> Option<int> {
    agent_ids(agents).index_of_first(id)
}

/// What the index holds of `agents`: each one's id and position.
pub open spec fn agent_entries(agents: Seq<Agent>) -> Seq<IndexEntry> {
    agents.map_values(|a: Agent| IndexEntry { id: a.id, position: a.position })
}

/// What the index holds of `foods`: each one's id and position.
pub open spec fn food_entries(foods: Seq<Food>) -> Seq<IndexEntry> {
    foods.map_values(|f: Food| IndexEntry { id: f.id, position: f.position })
}

/// `now` is `before` but for what it remembers of other agents.
pub open spec fn same_but_memory(now: Agent, before: Agent) -> bool {
    now == (Agent {
        sensors: Sensors { agent_sight: now.sensors.agent_sight, ..before.sensors },
        ..before
    })
}

/// The distance that goes with a squared raw distance, rounded down.
pub open spec fn distance_of(dist2: int) -> Fixed {
    Fixed { raw: sat(isqrt(dist2)) as i64 }
}

/// The memory of agent `i` after it has looked at the first `upto` of the
/// neighbours `near` at `time`: each of them that is another agent of the
/// world is noted as it then is, the later over the earlier.
pub open spec fn sightings(
    agents: Seq<Agent>,
    i: int,
    near: Seq<Neighbor>,
    time: Fixed,
    upto: int,
) -> Seq<AgentSight>
    decreases upto,
{
    if upto <= 0 {
        agents[i].sensors.agent_sight@
    } else {
        let before = sightings(agents, i, near, time, upto - 1);
        let nb = near[upto - 1];
        if nb.id == agents[i].id {
            before
        } else {
            match lookup(agents, nb.id) {
                Some(j) => remembered(
                    before,
                    AgentSight::of(agents[i], agents[j], time, distance_of(nb.dist2 as int)),
                ),
                None => before,
            }
        }
    }
}

/// The memory of agent `i` after it has looked around at `time` in an index
/// of `entries`: every other agent within its range of sight is noted. An
/// agent at a position that is not finite sees nothing.
pub open spec fn seen_by(agents: Seq<Agent>, entries: Seq<IndexEntry>, i: int, time: Fixed) -> Seq<
    AgentSight,
> {
    if agents[i].position.finite() {
        let near = within_entries(entries, agents[i].position, agents[i].sensors.sight_range@);
        sightings(agents, i, near, time, near.len() as int)
    } else {
        agents[i].sensors.agent_sight@
    }
}

/// Where in `agents` the agent `id` is.
pub fn find_agent(agents: &Vec<Agent>, id: u32) -> (r: Option<usize>)
    ensures
        match r {
            Some(p) => lookup(agents@, id) == Some(p as int) && p < agents@.len() && agents@[p as int].id
                == id,
            None => lookup(agents@, id) is None,
        },
{
    let ghost ids = agent_ids(agents@);
    let mut i: usize = 0;
    while i < agents.len()
        invariant
            0 <= i <= agents.len(),
            ids == agent_ids(agents@),
            forall|j: int| 0 <= j < i ==> ids[j] != id,
        decreases agents.len() - i,
    {
        if agents[i].id == id {
            proof {
                assert(ids[i as int] == id);
                assert(ids.contains(id));
                ids.index_of_first_ensures(id);
            }
            return Some(i);
        }
        i = i + 1;
    }
    proof {
        ids.index_of_first_ensures(id);
    }
    None
}

/// Among agents of which no two have one id, the agent `id` is where
/// `lookup` finds it and nowhere else.
pub proof fn lemma_lookup_unique(agents: Seq<Agent>, id: u32, i: int)
    requires
        0 <= i < agents.len(),
        agent_ids(agents).no_duplicates(),
    ensures
        (lookup(agents, id) == Some(i)) <==> agents[i].id == id,
{
    let ids = agent_ids(agents);
    ids.index_of_first_ensures(id);
    if agents[i].id == id {
        assert(ids[i] == id);
        assert(ids.contains(id));
    }
}

/// The entries of `agents`, as an index takes them.
pub fn entries_of(agents: &Vec<Agent>) -> (r: Vec<IndexEntry>)
    ensures
        r@ == agent_entries(agents@),
{
    let mut entries: Vec<IndexEntry> = Vec::new();
    let mut i: usize = 0;
    while i < agents.len()
        invariant
            0 <= i <= agents.len(),
            entries@.len() == i,
            forall|j: int|
                0 <= j < i ==> #[trigger] entries@[j] == (IndexEntry {
                    id: agents@[j].id,
                    position: agents@[j].position,
                }),
        decreases agents.len() - i,
    {
        entries.push(IndexEntry { id: agents[i].id, position: agents[i].position });
        i = i + 1;
    }
    assert(entries@ =~= agent_entries(agents@));
    entries
}

impl KdTrees {
    /// Every index holds finite positions only.
    pub open spec fn wf(&self) -> bool {
        self.agent_kdtree.wf() && self.item_kdtree.wf() && self.food_kdtree.wf()
    }

    /// Three empty indexes.
    pub fn new() -> (r: KdTrees)
        ensures
            r.wf(),
            r.agent_kdtree.entries@.len() == 0,
            r.item_kdtree.entries@.len() == 0,
            r.food_kdtree.entries@.len() == 0,
    {
        KdTrees {
            agent_kdtree: SpatialIndex::new(),
            item_kdtree: SpatialIndex::new(),
            food_kdtree: SpatialIndex::new(),
        }
    }

    /// Builds the index of the agents of `game` and that of its food anew.
    pub fn populate(&mut self, game: &Game)
        requires
            old(self).wf(),
        ensures
            final(self).wf(),
            final(self).agent_kdtree.entries@ == finite_entries(agent_entries(game.agents@)),
            final(self).food_kdtree.entries@ == finite_entries(food_entries(game.foods@)),
            final(self).item_kdtree == old(self).item_kdtree,
    {
        self.gen_agent_kdtree(&game.agents);
        self.gen_food_kdtree(&game.foods);
    }

    /// Replaces the index of the agents by one of `agents`: each agent at a
    /// finite position once, and nothing of what was there before.
    pub fn gen_agent_kdtree(&mut self, agents: &Vec<Agent>)
        ensures
            final(self).agent_kdtree.entries@ == finite_entries(agent_entries(agents@)),
            final(self).agent_kdtree.wf(),
            final(self).item_kdtree == old(self).item_kdtree,
            final(self).food_kdtree == old(self).food_kdtree,
    {
        let entries: Vec<IndexEntry> = entries_of(agents);
        self.agent_kdtree = SpatialIndex::build(&entries);
    }

    /// Replaces the index of the food by one of `foods`.
    pub fn gen_food_kdtree(&mut self, foods: &Vec<Food>)
        ensures
            final(self).food_kdtree.entries@ == finite_entries(food_entries(foods@)),
            final(self).food_kdtree.wf(),
            final(self).item_kdtree == old(self).item_kdtree,
            final(self).agent_kdtree == old(self).agent_kdtree,
    {
        let mut entries: Vec<IndexEntry> = Vec::new();
        let mut i: usize = 0;
        while i < foods.len()
            invariant
                0 <= i <= foods.len(),
                entries@.len() == i,
                forall|j: int|
                    0 <= j < i ==> #[trigger] entries@[j] == (IndexEntry {
                        id: foods@[j].id,
                        position: foods@[j].position,
                    }),
            decreases foods.len() - i,
        {
            entries.push(IndexEntry { id: foods[i].id, position: foods[i].position });
            i = i + 1;
        }
        assert(entries@ =~= food_entries(foods@));
        self.food_kdtree = SpatialIndex::build(&entries);
    }
}

impl Game {
    /// Replaces `agent_kdtree` by an index of the agents of the world: each
    /// agent at a finite position once, and nothing of what was there before.
    pub fn update_agent_kdtree(&self, agent_kdtree: &mut SpatialIndex)
        ensures
            final(agent_kdtree).entries@ == finite_entries(agent_entries(self.agents@)),
            final(agent_kdtree).wf(),
    {
        let entries: Vec<IndexEntry> = entries_of(&self.agents);
        *agent_kdtree = SpatialIndex::build(&entries);
    }

    /// No two agents have one id, and each agent is well formed.
    pub open spec fn wf(&self) -> bool {
        &&& agent_ids(self.agents@).no_duplicates()
        &&& forall|i: int| 0 <= i < self.agents@.len() ==> (#[trigger] self.agents@[i]).wf()
    }

    /// The agent `id`, if the world has it.
    pub fn agent(&self, id: u32) -> (r: Option<&Agent>)
        ensures
            match r {
                Some(a) => lookup(self.agents@, id) is Some && *a == self.agents@[lookup(
                    self.agents@,
                    id,
                )->Some_0],
                None => lookup(self.agents@, id) is None,
            },
    {
        match find_agent(&self.agents, id) {
            Some(p) => Some(&self.agents[p]),
            None => None,
        }
    }
}

/// Puts every agent whose position is not finite back into the world, at a
/// place drawn from all of it, and builds the index of the agents anew.
pub fn update_agent_kdtree(kdtrees: &mut KdTrees, game: &mut Game)
    ensures
        final(game).agents@.len() == old(game).agents@.len(),
        forall|i: int|
            0 <= i < old(game).agents@.len() ==> {
                let before = old(game).agents@[i];
                let after = #[trigger] final(game).agents@[i];
                if before.position.finite() {
                    after == before
                } else {
                    &&& after == (Agent { position: after.position, ..before })
                    &&& 0 <= after.position.x@ < LEVEL_WIDTH
                    &&& 0 <= after.position.y@ < LEVEL_HEIGHT
                }
            },
        final(kdtrees).agent_kdtree.entries@ == agent_entries(final(game).agents@),
        final(kdtrees).agent_kdtree.wf(),
        final(kdtrees).item_kdtree == old(kdtrees).item_kdtree,
        final(kdtrees).food_kdtree == old(kdtrees).food_kdtree,
        final(game).time == old(game).time,
        final(game).game_stage == old(game).game_stage,
        final(game).foods == old(game).foods,
        final(game).won == old(game).won,
{
    let n: usize = game.agents.len();
    let mut i: usize = 0;
    while i < n
        invariant
            0 <= i <= n,
            n == game.agents@.len(),
            n == old(game).agents@.len(),
            game.time == old(game).time,
            game.game_stage == old(game).game_stage,
            game.foods == old(game).foods,
            game.won == old(game).won,
            forall|j: int| i <= j < n ==> #[trigger] game.agents@[j] == old(game).agents@[j],
            forall|j: int|
                0 <= j < i ==> {
                    let before = old(game).agents@[j];
                    let after = #[trigger] game.agents@[j];
                    &&& after.position.finite()
                    &&& if before.position.finite() {
                        after == before
                    } else {
                        &&& after == (Agent { position: after.position, ..before })
                        &&& 0 <= after.position.x@ < LEVEL_WIDTH
                        &&& 0 <= after.position.y@ < LEVEL_HEIGHT
                    }
                },
        decreases n - i,
    {
        if !game.agents[i].position.is_finite() {
            let x: Fixed = random_between(Fixed::zero(), Fixed::new(LEVEL_WIDTH));
            let y: Fixed = random_between(Fixed::zero(), Fixed::new(LEVEL_HEIGHT));
            game.agents[i].position = Vec2::new(x, y);
        }
        i = i + 1;
    }
    kdtrees.gen_agent_kdtree(&game.agents);
    proof {
        lemma_all_finite(agent_entries(game.agents@));
    }
}

/// A list of finite positions stays as it is when the others are left out.
pub proof fn lemma_all_finite(points: Seq<IndexEntry>)
    requires
        forall|i: int| 0 <= i < points.len() ==> (#[trigger] points[i]).position.finite(),
    ensures
        finite_entries(points) == points,
    decreases points.len(),
{
    if points.len() > 0 {
        lemma_all_finite(points.drop_last());
        assert(points.drop_last().push(points.last()) == points);
    }
}

/// Every agent looks around at `time`: it notes each other agent that the
/// index has within its range of sight, as that agent is now, in place of
/// what it remembered of it. Nothing else changes.
pub fn see(game: &mut Game, kdtrees: &KdTrees, time: Fixed)
    requires
        old(game).wf(),
        kdtrees.agent_kdtree.wf(),
    ensures
        final(game).wf(),
        final(game).agents@.len() == old(game).agents@.len(),
        forall|i: int|
            0 <= i < old(game).agents@.len() ==> same_but_memory(
                #[trigger] final(game).agents@[i],
                old(game).agents@[i],
            ) && final(game).agents@[i].sensors.agent_sight@ == seen_by(
                old(game).agents@,
                kdtrees.agent_kdtree.entries@,
                i,
                time,
            ),
        final(game).time == old(game).time,
        final(game).game_stage == old(game).game_stage,
        final(game).foods == old(game).foods,
        final(game).won == old(game).won,
{
    let n: usize = game.agents.len();
    let ghost before = game.agents@;
    let ghost entries = kdtrees.agent_kdtree.entries@;
    let mut i: usize = 0;
    while i < n
        invariant
            0 <= i <= n,
            n == game.agents@.len(),
            n == before.len(),
            before == old(game).agents@,
            entries == kdtrees.agent_kdtree.entries@,
            kdtrees.agent_kdtree.wf(),
            old(game).wf(),
            game.time == old(game).time,
            game.game_stage == old(game).game_stage,
            game.foods == old(game).foods,
            game.won == old(game).won,
            forall|j: int| i <= j < n ==> #[trigger] game.agents@[j] == before[j],
            forall|j: int|
                0 <= j < i ==> same_but_memory(#[trigger] game.agents@[j], before[j])
                    && game.agents@[j].sensors.wf() && game.agents@[j].sensors.agent_sight@
                    == seen_by(before, entries, j, time),
        decreases n - i,
    {
        let position: Vec2 = game.agents[i].position;
        let range: Fixed = game.agents[i].sensors.sight_range;
        let own_id: u32 = game.agents[i].id;
        proof {
            assert(game.agents@[i as int] == before[i as int]);
            assert(before[i as int].wf());
        }
        match kdtrees.agent_kdtree.within_radius(position, range) {
            Ok(near) => {
                let mut t: usize = 0;
                while t < near.len()
                    invariant
                        0 <= t <= near@.len(),
                        0 <= i < n,
                        n == game.agents@.len(),
                        n == before.len(),
                        before == old(game).agents@,
                        old(game).wf(),
                        own_id == before[i as int].id,
                        game.time == old(game).time,
                        game.game_stage == old(game).game_stage,
                        game.foods == old(game).foods,
                        game.won == old(game).won,
                        forall|j: int| i < j < n ==> #[trigger] game.agents@[j] == before[j],
                        forall|j: int|
                            0 <= j < i ==> same_but_memory(#[trigger] game.agents@[j], before[j])
                                && game.agents@[j].sensors.wf()
                                && game.agents@[j].sensors.agent_sight@ == seen_by(
                                before,
                                entries,
                                j,
                                time,
                            ),
                        same_but_memory(game.agents@[i as int], before[i as int]),
                        game.agents@[i as int].sensors.wf(),
                        game.agents@[i as int].sensors.agent_sight@ == sightings(
                            before,
                            i as int,
                            near@,
                            time,
                            t as int,
                        ),
                    decreases near@.len() - t,
                {
                    let nb: Neighbor = near[t];
                    if nb.id != own_id {
                        proof {
                            assert(agent_ids(game.agents@) =~= agent_ids(before));
                        }
                        match find_agent(&game.agents, nb.id) {
                            Some(j) => {
                                let root: u64 = isqrt_u128(nb.dist2);
                                let distance: Fixed = Fixed { raw: sat_i128(root as i128) };
                                let sight: AgentSight = AgentSight::observe(
                                    &game.agents[i],
                                    &game.agents[j],
                                    time,
                                    distance,
                                );
                                proof {
                                    assert(same_but_memory(game.agents@[j as int], before[j as int]));
                                    assert(sight == AgentSight::of(
                                        before[i as int],
                                        before[j as int],
                                        time,
                                        distance_of(nb.dist2 as int),
                                    ));
                                }
                                game.agents[i].remember(sight);
                            },
                            None => {},
                        }
                    }
                    t = t + 1;
                }
            },
            Err(_) => {},
        }
        i = i + 1;
    }
    proof {
        assert(agent_ids(game.agents@) =~= agent_ids(before));
    }
}

/// The memory of agent `i` after the pass of forgetting in which it drew
/// `draw`: it goes through its memory on a draw below the chance for it, and
/// then forgets what it last saw more than its memory time before `time`.
pub open spec fn forgotten(agent: Agent, time: Fixed, draw: Fixed) -> Seq<AgentSight> {
    if draw@ < FORGET_CHANCE {
        retained(agent.sensors.agent_sight@, time, agent.memory_time)
    } else {
        agent.sensors.agent_sight@
    }
}

/// The pass of forgetting at `time`, with one draw for each agent: an agent
/// whose draw is below the chance forgets what is too old.
pub fn forget_drawn(game: &mut Game, time: Fixed, draws: &Vec<Fixed>)
    requires
        draws@.len() == old(game).agents@.len(),
    ensures
        old(game).wf() ==> final(game).wf(),
        final(game).agents@.len() == old(game).agents@.len(),
        forall|i: int|
            0 <= i < old(game).agents@.len() ==> same_but_memory(
                #[trigger] final(game).agents@[i],
                old(game).agents@[i],
            ) && final(game).agents@[i].sensors.agent_sight@ == forgotten(
                old(game).agents@[i],
                time,
                draws@[i],
            ),
        final(game).time == old(game).time,
        final(game).game_stage == old(game).game_stage,
        final(game).foods == old(game).foods,
        final(game).won == old(game).won,
{
    let n: usize = game.agents.len();
    let mut i: usize = 0;
    while i < n
        invariant
            0 <= i <= n,
            n == game.agents@.len(),
            n == old(game).agents@.len(),
            n == draws@.len(),
            game.time == old(game).time,
            game.game_stage == old(game).game_stage,
            game.foods == old(game).foods,
            game.won == old(game).won,
            forall|j: int| i <= j < n ==> #[trigger] game.agents@[j] == old(game).agents@[j],
            forall|j: int|
                0 <= j < i ==> same_but_memory(#[trigger] game.agents@[j], old(game).agents@[j])
                    && game.agents@[j].sensors.agent_sight@ == forgotten(
                    old(game).agents@[j],
                    time,
                    draws@[j],
                ) && (old(game).agents@[j].sensors.wf() ==> game.agents@[j].sensors.wf()),
        decreases n - i,
    {
        if draws[i].raw < FORGET_CHANCE {
            game.agents[i].forget_agents(time);
        }
        i = i + 1;
    }
    proof {
        assert(agent_ids(game.agents@) =~= agent_ids(old(game).agents@));
    }
}

/// The pass of forgetting at `time`: each agent, on a chance of one in ten,
/// forgets what it last saw more than its memory time ago.
pub fn forget(game: &mut Game, time: Fixed)
    ensures
        old(game).wf() ==> final(game).wf(),
        final(game).agents@.len() == old(game).agents@.len(),
        forall|i: int|
            0 <= i < old(game).agents@.len() ==> same_but_memory(
                #[trigger] final(game).agents@[i],
                old(game).agents@[i],
            ) && (final(game).agents@[i].sensors.agent_sight@ == old(
                game,
            ).agents@[i].sensors.agent_sight@ || final(game).agents@[i].sensors.agent_sight@
                == retained(
                old(game).agents@[i].sensors.agent_sight@,
                time,
                old(game).agents@[i].memory_time,
            )),
        final(game).time == old(game).time,
        final(game).game_stage == old(game).game_stage,
        final(game).foods == old(game).foods,
        final(game).won == old(game).won,
{
    let draws: Vec<Fixed> = random_units(game.agents.len());
    forget_drawn(game, time, &draws);
}

/// A record that was made at `time` outlives the forgetting at `time`, for
/// every memory time that is not negative.
pub proof fn lemma_fresh_record_is_kept(
    records: Seq<AgentSight>,
    time: Fixed,
    memory_time: Fixed,
    record: AgentSight,
)
    requires
        records.contains(record),
        record.time_of_last_sight == time,
        memory_time@ >= 0,
    ensures
        retained(records, time, memory_time).contains(record),
{
    crate::agent::lemma_retained_contains(records, time, memory_time, record);
}

} // verus!
